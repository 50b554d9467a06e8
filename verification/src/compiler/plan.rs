//! The test plan: every `[[test]]` block of a configuration the solver
//! accepted, compiled into what the hardware-in-the-loop runner executes.

use vstd::prelude::*;
use crate::compiler::config::{Config, TestCase};
use crate::compiler::solver::{solve, views, AssertionSubject, Conflict};
use crate::compiler::{any_error, database_or_default, family_table, family_tree, has_error, BackendSelect};
use crate::text::{owned, str_eq};

verus! {

/// A compiled test's payload: a declarative assertion (its text, which the
/// runner parses) or a scripted test's cargo-test name.
#[derive(Debug, Clone, PartialEq, Eq)]
pub enum TestBody {
    Declarative { assertion: String },
    Scripted { script: String },
}

/// One `[[test]]` block, validated and ready to run.
#[derive(Debug, Clone, PartialEq, Eq)]
pub struct CompiledTest {
    pub name: String,
    pub body: TestBody,
    /// The run's time limit in milliseconds.
    pub timeout_ms: u64,
    pub backend: BackendSelect,
}

impl CompiledTest {
    /// The declarative assertion's text, if this is a declarative test.
    pub fn assertion(&self) -> (r: Option<&str>)
        ensures
            match self.body {
                TestBody::Declarative { assertion } => r matches Some(a) && a@ == assertion@,
                TestBody::Scripted { .. } => r is None,
            },
    {
        match &self.body {
            TestBody::Declarative { assertion } => Some(assertion.as_str()),
            TestBody::Scripted { .. } => None,
        }
    }
}

/// A compiled test as plain values: name, `Ok(assertion)` or
/// `Err(script)`, timeout, backend.
pub open spec fn compiled_view(c: CompiledTest) -> (Seq<char>, Result<Seq<char>, Seq<char>>, u64, BackendSelect) {
    (c.name@, match c.body {
        TestBody::Declarative { assertion } => Ok(assertion@),
        TestBody::Scripted { script } => Err(script@),
    }, c.timeout_ms, c.backend)
}

/// The backend a (validated) backend value selects: `"qemu"`, `"hardware"`,
/// and otherwise both.
pub open spec fn backend_of(b: Option<String>) -> BackendSelect {
    match b {
        Some(s) => if s@ == "qemu"@ {
            BackendSelect::Qemu
        } else if s@ == "hardware"@ {
            BackendSelect::Hardware
        } else {
            BackendSelect::Both
        },
        None => BackendSelect::Both,
    }
}

/// What a (validated) test block compiles to: a `type = "scripted"` block
/// runs its script, every other block its assertion.
pub open spec fn compile_spec(t: TestCase) -> (Seq<char>, Result<Seq<char>, Seq<char>>, u64, BackendSelect) {
    (t.name@, if t.kind matches Some(k) && k@ == "scripted"@ {
        Err(match t.script {
            Some(s) => s@,
            None => Seq::empty(),
        })
    } else {
        Ok(t.assertion@)
    }, t.timeout_ms, backend_of(t.backend))
}

fn compile_one(t: &TestCase) -> (c: CompiledTest)
    ensures
        compiled_view(c) == compile_spec(*t),
{
    let backend = match &t.backend {
        Some(s) => if str_eq(s.as_str(), "qemu") {
            BackendSelect::Qemu
        } else if str_eq(s.as_str(), "hardware") {
            BackendSelect::Hardware
        } else {
            BackendSelect::Both
        },
        None => BackendSelect::Both,
    };
    let scripted = match &t.kind {
        Some(k) => str_eq(k.as_str(), "scripted"),
        None => false,
    };
    let body = if scripted {
        TestBody::Scripted {
            script: match &t.script {
                Some(s) => owned(s.as_str()),
                None => String::new(),
            },
        }
    } else {
        TestBody::Declarative { assertion: owned(t.assertion.as_str()) }
    };
    proof {
        if !scripted {
            assert(!(t.kind matches Some(k) && k@ == "scripted"@));
        }
    }
    CompiledTest { name: owned(t.name.as_str()), body, timeout_ms: t.timeout_ms, backend }
}

/// Validate `config` (against its family's database, the F446RE's for an
/// unknown family) and compile its `[[test]]` blocks: the plan when the
/// solver raises no error-severity conflict, else every conflict it raised.
/// `parsed[i]` is what parsing test block `i`'s assertion gave.
pub fn test_plan(config: &Config, parsed: &Vec<Result<AssertionSubject, String>>) -> (r: Result<Vec<CompiledTest>, Vec<Conflict>>)
    requires
        parsed@.len() == config.test@.len(),
    ensures
        match r {
            Err(cs) => has_error(cs@) && exists|t: crate::db::clock::ClockTree|
                family_tree(t, config.device.family@) && crate::compiler::clocks::tree_ok(t) && views(cs@)
                    == #[trigger] crate::compiler::solver::solve_spec(*config, family_table(config.device.family@), parsed@, t),
            Ok(plan) => (exists|cs: Seq<Conflict>, t: crate::db::clock::ClockTree|
                !has_error(cs) && family_tree(t, config.device.family@) && crate::compiler::clocks::tree_ok(t)
                    && #[trigger] views(cs) == #[trigger] crate::compiler::solver::solve_spec(
                    *config,
                    family_table(config.device.family@),
                    parsed@,
                    t,
                )) && plan@.map_values(|c: CompiledTest| compiled_view(c)) == config.test@.map_values(
                |t: TestCase| compile_spec(t),
            ),
        },
{
    let db = database_or_default(config.device.family.as_str());
    let conflicts = solve(config, &db, parsed);
    if any_error(&conflicts) {
        return Err(conflicts);
    }
    let mut plan: Vec<CompiledTest> = Vec::new();
    let mut i: usize = 0;
    while i < config.test.len()
        invariant
            0 <= i <= config.test@.len(),
            plan@.len() == i,
            forall|j: int| 0 <= j < i ==> compiled_view(#[trigger] plan@[j]) == compile_spec(config.test@[j]),
        decreases config.test@.len() - i,
    {
        plan.push(compile_one(&config.test[i]));
        i += 1;
    }
    assert(plan@.map_values(|c: CompiledTest| compiled_view(c)) =~= config.test@.map_values(|t: TestCase| compile_spec(t)));
    Ok(plan)
}


proof fn lemma_severity_by_view(c: Conflict, d: Conflict)
    requires
        c@ == d@,
    ensures
        crate::compiler::solver::severity_spec(c) == crate::compiler::solver::severity_spec(d),
{
    match c {
        Conflict::IrqConflict { .. } => {
            assert(d is IrqConflict);
        },
        _ => {
            assert(!(d is IrqConflict));
        },
    }
}

proof fn lemma_has_error_by_views(cs1: Seq<Conflict>, cs2: Seq<Conflict>)
    requires
        views(cs1) == views(cs2),
    ensures
        has_error(cs1) == has_error(cs2),
{
    assert(views(cs1).len() == cs1.len() && views(cs2).len() == cs2.len());
    assert forall|i: int| 0 <= i < cs1.len() implies crate::compiler::solver::severity_spec(#[trigger] cs1[i])
        == crate::compiler::solver::severity_spec(cs2[i]) by {
        assert(views(cs1)[i] == cs1[i]@ && views(cs2)[i] == cs2[i]@);
        lemma_severity_by_view(cs1[i], cs2[i]);
    }
    if has_error(cs1) {
        let i = choose|i: int| 0 <= i < cs1.len() && crate::compiler::solver::severity_spec(#[trigger] cs1[i])
            == crate::compiler::solver::Severity::Error;
        assert(crate::compiler::solver::severity_spec(cs2[i]) == crate::compiler::solver::Severity::Error);
    }
    if has_error(cs2) {
        let i = choose|i: int| 0 <= i < cs2.len() && crate::compiler::solver::severity_spec(#[trigger] cs2[i])
            == crate::compiler::solver::Severity::Error;
        assert(crate::compiler::solver::severity_spec(cs1[i]) == crate::compiler::solver::Severity::Error);
    }
}

/// Whether the test plan is refused is decided by the configuration alone:
/// the family fixes its clock tree, and whether conflicts hold an
/// error-severity one depends only on their values. So `test_plan` refuses
/// exactly when the solver's conflicts for the config hold an error, and
/// compiles the plan otherwise.
pub proof fn lemma_plan_refusal_decided(
    config: Config,
    parsed: Seq<Result<AssertionSubject, String>>,
    t1: crate::db::clock::ClockTree,
    t2: crate::db::clock::ClockTree,
    cs1: Seq<Conflict>,
    cs2: Seq<Conflict>,
)
    requires
        family_tree(t1, config.device.family@),
        family_tree(t2, config.device.family@),
        views(cs1) == crate::compiler::solver::solve_spec(config, family_table(config.device.family@), parsed, t1),
        views(cs2) == crate::compiler::solver::solve_spec(config, family_table(config.device.family@), parsed, t2),
    ensures
        has_error(cs1) == has_error(cs2),
{
    crate::db::clock::lemma_family_tree_unique(t1, t2);
    lemma_has_error_by_views(cs1, cs2);
}

} // verus!
