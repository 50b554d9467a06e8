//! The pin-mux compiler: the peripheral model, the configuration types, the
//! constraint solver and the clock-tree resolver, plus the per-family model
//! selection the entry points build on.

use vstd::prelude::*;
use crate::db::clock::ClockTree;
use crate::db::dma::DmaMap;
use crate::db::irq::IrqMap;
use crate::db::Database;
use crate::text::{owned, str_eq};

pub mod assertion;
pub mod clocks;
pub mod codegen;
pub mod config;
pub mod dma;
pub mod irq;
pub mod model;
pub mod plan;
pub mod render;
pub mod router;
pub mod solver;

verus! {

/// Returned when `[device].family` names an MCU the database doesn't cover.
#[derive(Debug, Clone, PartialEq, Eq)]
pub struct UnknownFamily(pub String);

impl UnknownFamily {
    /// The message, e.g. `unsupported device family "X": Nucleus supports
    /// STM32F446RE and STM32F411RE`, with the family quoted as `{:?}` does.
    pub fn to_string(&self) -> (r: String)
        ensures
            r@ == "unsupported device family "@ + crate::text::str_debug_spec(self.0@)
                + ": Nucleus supports STM32F446RE and STM32F411RE"@,
    {
        let mut r = String::from_str("unsupported device family ");
        let q = crate::text::str_debug(self.0.as_str());
        r.append(q.as_str());
        r.append(": Nucleus supports STM32F446RE and STM32F411RE");
        r
    }
}

/// Which family's tables a family name selects: `Some(true)` for the F446RE
/// (also the empty name), `Some(false)` for the F411RE, `None` otherwise.
pub open spec fn family_is_f446(family: Seq<char>) -> Option<bool> {
    if family == "STM32F446RE"@ || family == Seq::<char>::empty() {
        Some(true)
    } else if family == "STM32F411RE"@ {
        Some(false)
    } else {
        None
    }
}

/// The database to validate against for `family`: empty or `"STM32F446RE"`
/// selects the F446RE, `"STM32F411RE"` the F411RE; anything else is an
/// [`UnknownFamily`] error.
pub fn database_for(family: &str) -> (r: Result<Database, UnknownFamily>)
    ensures
        match family_is_f446(family@) {
            Some(true) => r matches Ok(db) && db@ == crate::db::data::f446re_table(),
            Some(false) => r matches Ok(db) && db@ == crate::db::data::f411re_table(),
            None => r matches Err(e) && e.0@ == family@,
        },
{
    if str_eq(family, "STM32F446RE") || family.unicode_len() == 0 {
        proof {
            if family@.len() == 0 {
                assert(family@ =~= Seq::<char>::empty());
            }
        }
        Ok(Database::f446re())
    } else if str_eq(family, "STM32F411RE") {
        Ok(Database::f411re())
    } else {
        proof {
            if family@ == Seq::<char>::empty() {
                assert(family@.len() == 0);
            }
        }
        Err(UnknownFamily(owned(family)))
    }
}

/// `t` is the clock tree a family name selects: the F411RE's for
/// `"STM32F411RE"`, the F446RE's for anything else.
pub open spec fn family_tree(t: ClockTree, family: Seq<char>) -> bool {
    if family == "STM32F411RE"@ {
        crate::db::clock::is_f411re_tree(t)
    } else {
        crate::db::clock::is_f446re_tree(t)
    }
}

/// The clock-tree model for `family`; anything but `"STM32F411RE"` falls
/// back to the F446RE.
pub fn clock_tree_for(family: &str) -> (t: ClockTree)
    ensures
        crate::compiler::clocks::tree_ok(t),
        family_tree(t, family@),
{
    if str_eq(family, "STM32F411RE") {
        ClockTree::f411re()
    } else {
        ClockTree::f446re()
    }
}

/// The DMA model for `family`; anything but `"STM32F411RE"` falls back to the
/// F446RE.
pub fn dma_map_for(family: &str) -> (m: DmaMap)
    ensures
        m@ == if family@ == "STM32F411RE"@ {
            crate::db::dma::f411re_requests()
        } else {
            crate::db::dma::f446re_requests()
        },
{
    if str_eq(family, "STM32F411RE") {
        DmaMap::f411re()
    } else {
        DmaMap::f446re()
    }
}

/// The IRQ/NVIC model for `family`; anything but `"STM32F411RE"` falls back
/// to the F446RE.
pub fn irq_map_for(family: &str) -> (m: IrqMap)
    ensures
        m@ == if family@ == "STM32F411RE"@ {
            crate::db::irq::f411re_rows()
        } else {
            crate::db::irq::f446re_rows()
        },
{
    if str_eq(family, "STM32F411RE") {
        IrqMap::f411re()
    } else {
        IrqMap::f446re()
    }
}

/// Which backend(s) a compiled test should run on.
#[derive(Debug, Clone, Copy, PartialEq, Eq, Structural)]
pub enum BackendSelect {
    Qemu,
    Hardware,
    Both,
}

/// The outcome of checking one configuration.
#[derive(Debug, Clone)]
pub struct CheckReport {
    /// The checked configuration.
    pub config: crate::compiler::config::Config,
    /// Every detected conflict, in the solver's order; empty means valid.
    pub conflicts: Vec<crate::compiler::solver::Conflict>,
}

/// Whether a conflict list has an error (warnings do not count).
pub open spec fn has_error(cs: Seq<crate::compiler::solver::Conflict>) -> bool {
    exists|i: int| 0 <= i < cs.len() && crate::compiler::solver::severity_spec(#[trigger] cs[i]) == crate::compiler::solver::Severity::Error
}

/// Whether `cs` holds an error-severity conflict.
pub fn any_error(cs: &Vec<crate::compiler::solver::Conflict>) -> (r: bool)
    ensures
        r == has_error(cs@),
{
    let mut i: usize = 0;
    while i < cs.len()
        invariant
            0 <= i <= cs@.len(),
            forall|j: int| 0 <= j < i ==> crate::compiler::solver::severity_spec(#[trigger] cs@[j]) != crate::compiler::solver::Severity::Error,
        decreases cs@.len() - i,
    {
        if cs[i].severity() == crate::compiler::solver::Severity::Error {
            return true;
        }
        i += 1;
    }
    false
}

impl CheckReport {
    /// Whether the configuration is free of error-severity conflicts
    /// (warnings do not make it fail).
    pub fn is_ok(&self) -> (r: bool)
        ensures
            r == !has_error(self.conflicts@),
    {
        !any_error(&self.conflicts)
    }
}

/// The database table a family name selects: the F411RE's for
/// `"STM32F411RE"`, the F446RE's otherwise.
pub open spec fn family_table(family: Seq<char>) -> Seq<crate::db::AfMapping> {
    match family_is_f446(family) {
        Some(false) => crate::db::data::f411re_table(),
        _ => crate::db::data::f446re_table(),
    }
}

/// The database a family name selects, falling back to the F446RE for an
/// unknown family (the caller surfaces the mismatch).
pub fn database_or_default(family: &str) -> (db: Database)
    ensures
        db@ == family_table(family@),
{
    match database_for(family) {
        Ok(db) => db,
        Err(_) => Database::f446re(),
    }
}

/// Check a parsed configuration: solve it against its family's database
/// (the F446RE's for an unknown family). `parsed[i]` is what parsing test
/// block `i`'s assertion gave.
pub fn check_config(
    config: crate::compiler::config::Config,
    parsed: &Vec<Result<crate::compiler::solver::AssertionSubject, String>>,
) -> (r: CheckReport)
    requires
        parsed@.len() == config.test@.len(),
    ensures
        r.config == config,
        exists|t: ClockTree|
            family_tree(t, config.device.family@) && crate::compiler::clocks::tree_ok(t)
                && crate::compiler::solver::views(r.conflicts@) == #[trigger] crate::compiler::solver::solve_spec(
                config,
                family_table(config.device.family@),
                parsed@,
                t,
            ),
{
    let db = database_or_default(config.device.family.as_str());
    let conflicts = crate::compiler::solver::solve(&config, &db, parsed);
    CheckReport { config, conflicts }
}

} // verus!
