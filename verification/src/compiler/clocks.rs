//! The clock-tree resolver: turns a `[clocks]` configuration into the actual
//! frequency at every clock-tree node, and validates those frequencies and
//! the divider settings against the family's silicon limits.

use vstd::prelude::*;
use crate::compiler::config::{integer_spec, Clocks, Config};
use crate::compiler::model::{peripheral_name, peripheral_name_spec};
use crate::compiler::solver::Conflict;
use crate::db::clock::{
    first_bus, first_oscillator, timer_multiplier_spec, Bus, ClockTree, Oscillator, SysclkSource,
};
use crate::text::{
    ascii_lower, dec_digits, owned, starts_with, str_eq, to_ascii_lowercase, u64_to_string,
};

verus! {

/// The resolved frequency at every clock-tree node, in hertz.
#[derive(Debug, Clone, Copy, PartialEq, Eq, Structural)]
pub struct ResolvedClocks {
    pub sysclk_hz: u32,
    pub hclk_hz: u32,
    pub pclk1_hz: u32,
    pub pclk2_hz: u32,
    pub apb1_timer_hz: u32,
    pub apb2_timer_hz: u32,
    /// PLL VCO input (after the M divider); `0` when SYSCLK is not the PLL.
    pub pll_vco_in_hz: u32,
    /// PLL VCO output (after the N multiplier); `0` when SYSCLK is not the PLL.
    pub pll_vco_out_hz: u32,
}

/// The frequency one configured peripheral receives: its bus clock, or the
/// timer clock for a `TIM*` on an APB bus.
#[derive(Debug, Clone, Copy, PartialEq, Eq, Structural)]
pub struct PeripheralFreq {
    pub bus: Bus,
    pub hz: u32,
}

/// The clock configuration with every optional field folded to a value.
#[derive(Debug, Clone, Copy, PartialEq, Eq, Structural)]
pub struct Effective {
    pub source: SysclkSource,
    pub pll_source: Oscillator,
    pub pll_m: u32,
    pub pll_n: u32,
    pub pll_p: u32,
    pub pll_q: Option<u32>,
    pub ahb_presc: u32,
    pub apb1_presc: u32,
    pub apb2_presc: u32,
}

/// Why a clock configuration has no frequencies: an unknown source string
/// (`field` is `"SYSCLK"` or `"PLL"`) or a zero divider at `node`.
#[derive(Debug, Clone, PartialEq, Eq)]
pub enum ResolveError {
    UnknownSource { field: &'static str, value: String },
    ZeroDivider { node: &'static str },
}

/// The trees the resolver is built for: an `M` divider of at least 2, `N` of
/// at most 432, `P` dividers of at least 2, oscillators of at most 16 MHz and
/// a SYSCLK limit of at most 2 GHz — so no frequency overflows 32 bits.
pub open spec fn tree_ok(t: ClockTree) -> bool {
    &&& t.pll_model().m.min >= 2
    &&& t.pll_model().n.max <= 432
    &&& forall|i: int| 0 <= i < t.pll_model().p@.len() ==> #[trigger] t.pll_model().p@[i] >= 2
    &&& forall|i: int| 0 <= i < t.oscillators_model().len() ==> #[trigger] t.oscillators_model()[i].nominal_hz <= 16_000_000
    &&& t.limits_model().max_sysclk_hz <= 2_000_000_000
}

/// The nominal frequency of `osc` in `t`, or 0 when the family lacks it.
pub open spec fn osc_hz_spec(t: ClockTree, osc: Oscillator) -> u32 {
    match first_oscillator(t.oscillators_model(), osc) {
        Some(o) => o.nominal_hz,
        None => 0,
    }
}

pub open spec fn max_u32(a: u32, b: u32) -> u32 {
    if a >= b {
        a
    } else {
        b
    }
}

/// The first prescaler of `s` that is non-zero and brings `hclk` within `limit`.
pub open spec fn first_presc_within(s: Seq<u32>, hclk: u32, limit: u32) -> Option<u32>
    decreases s.len(),
{
    if s.len() == 0 {
        None
    } else if s[0] != 0 && hclk / s[0] <= limit {
        Some(s[0])
    } else {
        first_presc_within(s.drop_first(), hclk, limit)
    }
}

/// The limit of `bus` in `t`.
pub open spec fn bus_limit(t: ClockTree, bus: Bus) -> u32 {
    match bus {
        Bus::Apb1 => t.limits_model().max_apb1_hz,
        Bus::Apb2 => t.limits_model().max_apb2_hz,
        Bus::Ahb1 => t.limits_model().max_ahb_hz,
    }
}

/// The smallest legal prescaler for `bus` keeping `hclk / presc` within the
/// bus limit; the largest one (or 1 for an empty set) when none does.
pub open spec fn smallest_presc_spec(t: ClockTree, bus: Bus, hclk: u32) -> u32 {
    match first_presc_within(t.prescalers_model(bus), hclk, bus_limit(t, bus)) {
        Some(p) => p,
        None => if t.prescalers_model(bus).len() > 0 {
            t.prescalers_model(bus).last()
        } else {
            1
        },
    }
}

/// The default `M`: a 1 MHz VCO input from the HSE, at least the PLL minimum.
pub open spec fn default_m(t: ClockTree) -> u32 {
    max_u32(osc_hz_spec(t, Oscillator::Hse) / 1_000_000, t.pll_model().m.min)
}

pub open spec fn default_vco_in(t: ClockTree) -> u32 {
    osc_hz_spec(t, Oscillator::Hse) / default_m(t)
}

/// The family's known-good configuration: HSE → PLL at the family's SYSCLK
/// limit with `P = 2`, AHB undivided, each APB on its smallest legal
/// prescaler. `None` when the family has no usable HSE (VCO input of 0).
pub open spec fn default_effective_spec(t: ClockTree) -> Option<Effective> {
    if default_vco_in(t) == 0 {
        None
    } else {
        let limits = t.limits_model();
        Some(Effective {
            source: SysclkSource::Pll,
            pll_source: Oscillator::Hse,
            pll_m: default_m(t),
            pll_n: ((limits.max_sysclk_hz * 2) as u32 / default_vco_in(t)) as u32,
            pll_p: 2,
            pll_q: Some(max_u32(t.pll_model().q.min, 2)),
            ahb_presc: 1,
            apb1_presc: smallest_presc_spec(t, Bus::Apb1, limits.max_sysclk_hz),
            apb2_presc: smallest_presc_spec(t, Bus::Apb2, limits.max_sysclk_hz),
        })
    }
}

/// A SYSCLK source spelling (case-insensitive).
pub open spec fn sysclk_source_of(s: Seq<char>) -> Option<SysclkSource> {
    let l = s.map_values(|c: char| ascii_lower(c));
    if l == "hsi"@ {
        Some(SysclkSource::Hsi)
    } else if l == "hse"@ {
        Some(SysclkSource::Hse)
    } else if l == "pll"@ {
        Some(SysclkSource::Pll)
    } else {
        None
    }
}

/// A PLL source spelling (case-insensitive).
pub open spec fn pll_source_of(s: Seq<char>) -> Option<Oscillator> {
    let l = s.map_values(|c: char| ascii_lower(c));
    if l == "hsi"@ {
        Some(Oscillator::Hsi)
    } else if l == "hse"@ {
        Some(Oscillator::Hse)
    } else {
        None
    }
}

pub open spec fn opt_or(o: Option<u32>, d: u32) -> u32 {
    match o {
        Some(v) => v,
        None => d,
    }
}

/// Why folding fails, as plain values: `(field or node, offending value,
/// is-a-zero-divider)`.
pub type FoldError = (Seq<char>, Seq<char>, bool);

/// The `[clocks]` fields folded onto the family defaults; the first failure
/// (no default PLL setup, then an unknown SYSCLK source, then an unknown PLL
/// source) when they cannot be.
pub open spec fn effective_spec(c: Clocks, t: ClockTree) -> Result<Effective, FoldError> {
    match default_effective_spec(t) {
        None => Err(("PLL"@, Seq::empty(), true)),
        Some(d) => {
            let src = match c.source {
                Some(s) => sysclk_source_of(s@),
                None => Some(d.source),
            };
            let psrc = match c.pll_source {
                Some(s) => pll_source_of(s@),
                None => Some(d.pll_source),
            };
            if src is None {
                Err(("SYSCLK"@, c.source->0@, false))
            } else if psrc is None {
                Err(("PLL"@, c.pll_source->0@, false))
            } else {
                Ok(Effective {
                    source: src->0,
                    pll_source: psrc->0,
                    pll_m: opt_or(c.pll_m, d.pll_m),
                    pll_n: opt_or(c.pll_n, d.pll_n),
                    pll_p: opt_or(c.pll_p, d.pll_p),
                    pll_q: if c.pll_q is Some { c.pll_q } else { d.pll_q },
                    ahb_presc: opt_or(c.ahb_prescaler, d.ahb_presc),
                    apb1_presc: opt_or(c.apb1_prescaler, d.apb1_presc),
                    apb2_presc: opt_or(c.apb2_prescaler, d.apb2_presc),
                })
            }
        },
    }
}

/// SYSCLK, VCO input and VCO output of an effective configuration, as
/// mathematical integers (no overflow).
pub open spec fn core_freqs(e: Effective, t: ClockTree) -> (int, int, int) {
    match e.source {
        SysclkSource::Hsi => (osc_hz_spec(t, Oscillator::Hsi) as int, 0, 0),
        SysclkSource::Hse => (osc_hz_spec(t, Oscillator::Hse) as int, 0, 0),
        SysclkSource::Pll => {
            let vin = osc_hz_spec(t, e.pll_source) / e.pll_m;
            let vout = vin * e.pll_n;
            (vout / e.pll_p as int, vin as int, vout)
        },
    }
}

/// Which divider of `e` is zero, in the order the resolver checks them.
pub open spec fn zero_divider(e: Effective) -> Option<Seq<char>> {
    if e.source == SysclkSource::Pll && (e.pll_m == 0 || e.pll_p == 0) {
        Some("PLL"@)
    } else if e.ahb_presc == 0 {
        Some("AHB"@)
    } else if e.apb1_presc == 0 {
        Some("APB1"@)
    } else if e.apb2_presc == 0 {
        Some("APB2"@)
    } else {
        None
    }
}

/// The frequencies of `e` all fit in 32 bits (the resolver's arithmetic
/// cannot overflow).
pub open spec fn fits_u32(e: Effective, t: ClockTree) -> bool {
    zero_divider(e) is None ==> {
        let (sys, vin, vout) = core_freqs(e, t);
        let hclk = sys / e.ahb_presc as int;
        &&& vout <= u32::MAX
        &&& (hclk / e.apb1_presc as int) * timer_multiplier_spec(Bus::Apb1, e.apb1_presc) <= u32::MAX
        &&& (hclk / e.apb2_presc as int) * timer_multiplier_spec(Bus::Apb2, e.apb2_presc) <= u32::MAX
    }
}

/// The resolved frequencies of an effective configuration without zero dividers.
pub open spec fn resolved_spec(e: Effective, t: ClockTree) -> ResolvedClocks {
    let (sys, vin, vout) = core_freqs(e, t);
    let hclk = sys / e.ahb_presc as int;
    let pclk1 = hclk / e.apb1_presc as int;
    let pclk2 = hclk / e.apb2_presc as int;
    ResolvedClocks {
        sysclk_hz: sys as u32,
        hclk_hz: hclk as u32,
        pclk1_hz: pclk1 as u32,
        pclk2_hz: pclk2 as u32,
        apb1_timer_hz: (pclk1 * timer_multiplier_spec(Bus::Apb1, e.apb1_presc)) as u32,
        apb2_timer_hz: (pclk2 * timer_multiplier_spec(Bus::Apb2, e.apb2_presc)) as u32,
        pll_vco_in_hz: vin as u32,
        pll_vco_out_hz: vout as u32,
    }
}

/// What [`resolve`] returns.
pub open spec fn resolve_spec(c: Clocks, t: ClockTree) -> Option<ResolvedClocks> {
    match effective_spec(c, t) {
        Ok(e) => if zero_divider(e) is None {
            Some(resolved_spec(e, t))
        } else {
            None
        },
        Err(_) => None,
    }
}

/// The inputs [`resolve`] can compute without overflowing 32-bit arithmetic
/// (the others make the 32-bit computation overflow).
pub open spec fn resolvable(c: Clocks, t: ClockTree) -> bool {
    effective_spec(c, t) matches Ok(e) ==> fits_u32(e, t)
}

fn osc_hz(tree: &ClockTree, osc: Oscillator) -> (r: u32)
    ensures
        r == osc_hz_spec(*tree, osc),
{
    match tree.oscillator(osc) {
        Some(o) => o.nominal_hz,
        None => 0,
    }
}

proof fn lemma_osc_bound(t: ClockTree, osc: Oscillator)
    requires
        tree_ok(t),
    ensures
        osc_hz_spec(t, osc) <= 16_000_000,
{
    lemma_first_oscillator_in(t.oscillators_model(), osc);
}

proof fn lemma_first_oscillator_in(s: Seq<crate::db::clock::OscillatorSpec>, osc: Oscillator)
    ensures
        first_oscillator(s, osc) matches Some(o) ==> exists|i: int| 0 <= i < s.len() && s[i] == o,
    decreases s.len(),
{
    if s.len() > 0 && s[0].source != osc {
        lemma_first_oscillator_in(s.drop_first(), osc);
        if first_oscillator(s, osc) is Some {
            let o = first_oscillator(s, osc)->0;
            let i = choose|i: int| 0 <= i < s.drop_first().len() && s.drop_first()[i] == o;
            assert(s[i + 1] == o);
        }
    } else if s.len() > 0 {
        assert(s[0] == s[0]);
    }
}

fn smallest_presc_within(tree: &ClockTree, bus: Bus, hclk: u32) -> (r: u32)
    ensures
        r == smallest_presc_spec(*tree, bus, hclk),
{
    let limits = tree.limits();
    let limit = match bus {
        Bus::Apb1 => limits.max_apb1_hz,
        Bus::Apb2 => limits.max_apb2_hz,
        Bus::Ahb1 => limits.max_ahb_hz,
    };
    let ps = tree.prescalers(bus);
    let mut chosen: u32 = if ps.len() > 0 { ps[ps.len() - 1] } else { 1 };
    let mut i: usize = 0;
    assert(ps@.skip(0) =~= ps@);
    while i < ps.len()
        invariant
            0 <= i <= ps@.len(),
            ps@ == tree.prescalers_model(bus),
            limit == bus_limit(*tree, bus),
            chosen == (if ps@.len() > 0 { ps@.last() } else { 1u32 }),
            first_presc_within(ps@, hclk, limit) == first_presc_within(ps@.skip(i as int), hclk, limit),
        decreases ps@.len() - i,
    {
        let p = ps[i];
        assert(ps@.skip(i as int)[0] == p);
        if p != 0 && hclk / p <= limit {
            return p;
        }
        assert(ps@.skip(i as int).drop_first() =~= ps@.skip(i + 1));
        i += 1;
    }
    chosen
}

fn default_effective(tree: &ClockTree) -> (r: Result<Effective, ResolveError>)
    requires
        tree_ok(*tree),
    ensures
        match default_effective_spec(*tree) {
            Some(d) => r == Ok::<Effective, ResolveError>(d),
            None => r matches Err(ResolveError::ZeroDivider { node }) && node@ == "PLL"@,
        },
{
    let hse = osc_hz(tree, Oscillator::Hse);
    let limits = tree.limits();
    let m_min = tree.pll().m.min;
    let q_min = tree.pll().q.min;
    let pll_m = if hse / 1_000_000 >= m_min { hse / 1_000_000 } else { m_min };
    let pll_p: u32 = 2;
    let vco_in = hse / pll_m;
    if vco_in == 0 {
        return Err(ResolveError::ZeroDivider { node: "PLL" });
    }
    let pll_n = limits.max_sysclk_hz * pll_p / vco_in;
    let ahb_presc: u32 = 1;
    let apb1_presc = smallest_presc_within(tree, Bus::Apb1, limits.max_sysclk_hz / ahb_presc);
    let apb2_presc = smallest_presc_within(tree, Bus::Apb2, limits.max_sysclk_hz / ahb_presc);
    Ok(Effective {
        source: SysclkSource::Pll,
        pll_source: Oscillator::Hse,
        pll_m,
        pll_n,
        pll_p,
        pll_q: Some(if q_min >= 2 { q_min } else { 2 }),
        ahb_presc,
        apb1_presc,
        apb2_presc,
    })
}

fn parse_sysclk_source(s: &str) -> (r: Option<SysclkSource>)
    ensures
        r == sysclk_source_of(s@),
{
    let l = to_ascii_lowercase(s);
    if str_eq(l.as_str(), "hsi") {
        Some(SysclkSource::Hsi)
    } else if str_eq(l.as_str(), "hse") {
        Some(SysclkSource::Hse)
    } else if str_eq(l.as_str(), "pll") {
        Some(SysclkSource::Pll)
    } else {
        None
    }
}

fn parse_pll_source(s: &str) -> (r: Option<Oscillator>)
    ensures
        r == pll_source_of(s@),
{
    let l = to_ascii_lowercase(s);
    if str_eq(l.as_str(), "hsi") {
        Some(Oscillator::Hsi)
    } else if str_eq(l.as_str(), "hse") {
        Some(Oscillator::Hse)
    } else {
        None
    }
}

/// Fold the optional `[clocks]` fields onto the family defaults.
pub fn effective(clocks: &Clocks, tree: &ClockTree) -> (r: Result<Effective, ResolveError>)
    requires
        tree_ok(*tree),
    ensures
        match effective_spec(*clocks, *tree) {
            Ok(e) => r == Ok::<Effective, ResolveError>(e),
            Err(f) => match r {
                Err(ResolveError::UnknownSource { field, value }) => !f.2 && field@ == f.0 && value@ == f.1,
                Err(ResolveError::ZeroDivider { node }) => f.2 && node@ == f.0,
                Ok(_) => false,
            },
        },
{
    let mut eff = match default_effective(tree) {
        Ok(e) => e,
        Err(e) => return Err(e),
    };
    match &clocks.source {
        Some(s) => match parse_sysclk_source(s.as_str()) {
            Some(v) => {
                eff.source = v;
            },
            None => {
                return Err(ResolveError::UnknownSource { field: "SYSCLK", value: s.clone() });
            },
        },
        None => {},
    }
    match &clocks.pll_source {
        Some(s) => match parse_pll_source(s.as_str()) {
            Some(v) => {
                eff.pll_source = v;
            },
            None => {
                return Err(ResolveError::UnknownSource { field: "PLL", value: s.clone() });
            },
        },
        None => {},
    }
    if let Some(v) = clocks.pll_m {
        eff.pll_m = v;
    }
    if let Some(v) = clocks.pll_n {
        eff.pll_n = v;
    }
    if let Some(v) = clocks.pll_p {
        eff.pll_p = v;
    }
    if clocks.pll_q.is_some() {
        eff.pll_q = clocks.pll_q;
    }
    if let Some(v) = clocks.ahb_prescaler {
        eff.ahb_presc = v;
    }
    if let Some(v) = clocks.apb1_prescaler {
        eff.apb1_presc = v;
    }
    if let Some(v) = clocks.apb2_prescaler {
        eff.apb2_presc = v;
    }
    Ok(eff)
}

/// Compute the resolved frequency at every node of an effective
/// configuration, reporting the first zero divider.
pub fn resolve_effective(eff: &Effective, tree: &ClockTree) -> (r: Result<ResolvedClocks, ResolveError>)
    requires
        fits_u32(*eff, *tree),
    ensures
        match zero_divider(*eff) {
            Some(node) => r matches Err(ResolveError::ZeroDivider { node: n }) && n@ == node,
            None => r == Ok::<ResolvedClocks, ResolveError>(resolved_spec(*eff, *tree)),
        },
{
    let (sysclk, vco_in, vco_out) = match eff.source {
        SysclkSource::Hsi => (osc_hz(tree, Oscillator::Hsi), 0u32, 0u32),
        SysclkSource::Hse => (osc_hz(tree, Oscillator::Hse), 0u32, 0u32),
        SysclkSource::Pll => {
            if eff.pll_m == 0 {
                return Err(ResolveError::ZeroDivider { node: "PLL" });
            }
            if eff.pll_p == 0 {
                return Err(ResolveError::ZeroDivider { node: "PLL" });
            }
            let input = osc_hz(tree, eff.pll_source);
            let vco_in = input / eff.pll_m;
            proof {
                if eff.ahb_presc != 0 && eff.apb1_presc != 0 && eff.apb2_presc != 0 {
                    assert(zero_divider(*eff) is None);
                }
            }
            if eff.ahb_presc == 0 || eff.apb1_presc == 0 || eff.apb2_presc == 0 {
                if eff.ahb_presc == 0 {
                    return Err(ResolveError::ZeroDivider { node: "AHB" });
                } else if eff.apb1_presc == 0 {
                    return Err(ResolveError::ZeroDivider { node: "APB1" });
                } else {
                    return Err(ResolveError::ZeroDivider { node: "APB2" });
                }
            }
            let vco_out = vco_in * eff.pll_n;
            (vco_out / eff.pll_p, vco_in, vco_out)
        },
    };
    if eff.ahb_presc == 0 {
        return Err(ResolveError::ZeroDivider { node: "AHB" });
    }
    if eff.apb1_presc == 0 {
        return Err(ResolveError::ZeroDivider { node: "APB1" });
    }
    if eff.apb2_presc == 0 {
        return Err(ResolveError::ZeroDivider { node: "APB2" });
    }
    let hclk = sysclk / eff.ahb_presc;
    let pclk1 = hclk / eff.apb1_presc;
    let pclk2 = hclk / eff.apb2_presc;
    let m1 = ClockTree::timer_multiplier(Bus::Apb1, eff.apb1_presc);
    let m2 = ClockTree::timer_multiplier(Bus::Apb2, eff.apb2_presc);
    Ok(ResolvedClocks {
        sysclk_hz: sysclk,
        hclk_hz: hclk,
        pclk1_hz: pclk1,
        pclk2_hz: pclk2,
        apb1_timer_hz: pclk1 * m1,
        apb2_timer_hz: pclk2 * m2,
        pll_vco_in_hz: vco_in,
        pll_vco_out_hz: vco_out,
    })
}

/// Whether the frequencies of `eff` all fit in 32 bits.
fn fits(eff: &Effective, tree: &ClockTree) -> (r: bool)
    ensures
        r == fits_u32(*eff, *tree),
{
    if eff.ahb_presc == 0 || eff.apb1_presc == 0 || eff.apb2_presc == 0 {
        return true;
    }
    let (sys, vout): (u64, u64) = match eff.source {
        SysclkSource::Hsi => (osc_hz(tree, Oscillator::Hsi) as u64, 0),
        SysclkSource::Hse => (osc_hz(tree, Oscillator::Hse) as u64, 0),
        SysclkSource::Pll => {
            if eff.pll_m == 0 || eff.pll_p == 0 {
                return true;
            }
            let vin = osc_hz(tree, eff.pll_source) / eff.pll_m;
            assert(vin as int * eff.pll_n as int <= 0xffff_ffff * 0xffff_ffff) by (nonlinear_arith)
                requires
                    vin <= 0xffff_ffff,
                    eff.pll_n <= 0xffff_ffff,
            ;
            let vout = vin as u64 * eff.pll_n as u64;
            (vout / eff.pll_p as u64, vout)
        },
    };
    if vout > 0xffff_ffff {
        return false;
    }
    assert(sys <= 0xffff_ffff) by (nonlinear_arith)
        requires
            sys <= 0xffff_ffff || (vout <= 0xffff_ffff && eff.pll_p >= 1 && sys == vout / eff.pll_p as u64),
    ;
    let hclk = sys / eff.ahb_presc as u64;
    let p1 = hclk / eff.apb1_presc as u64;
    let p2 = hclk / eff.apb2_presc as u64;
    assert(p1 <= 0xffff_ffff && p2 <= 0xffff_ffff) by (nonlinear_arith)
        requires
            sys <= 0xffff_ffff,
            eff.ahb_presc >= 1 && eff.apb1_presc >= 1 && eff.apb2_presc >= 1,
            hclk == sys / eff.ahb_presc as u64,
            p1 == hclk / eff.apb1_presc as u64,
            p2 == hclk / eff.apb2_presc as u64,
    ;
    let m1 = ClockTree::timer_multiplier(Bus::Apb1, eff.apb1_presc) as u64;
    let m2 = ClockTree::timer_multiplier(Bus::Apb2, eff.apb2_presc) as u64;
    assert(p1 * m1 <= 0x2_0000_0000 && p2 * m2 <= 0x2_0000_0000) by (nonlinear_arith)
        requires
            p1 <= 0xffff_ffff && p2 <= 0xffff_ffff && m1 <= 2 && m2 <= 2,
    ;
    let t1 = p1 * m1;
    let t2 = p2 * m2;
    t1 <= 0xffff_ffff && t2 <= 0xffff_ffff
}

/// Resolve a `[clocks]` config into frequencies. `None` when the config has
/// no frequencies at all (an unknown source string or a zero divider), and
/// `None` too where a frequency would not fit in 32 bits, in place of a
/// wrapped one.
pub fn resolve(clocks: &Clocks, tree: &ClockTree) -> (r: Option<ResolvedClocks>)
    requires
        tree_ok(*tree),
    ensures
        r == (if resolvable(*clocks, *tree) { resolve_spec(*clocks, *tree) } else { None }),
{
    let eff = match effective(clocks, tree) {
        Ok(e) => e,
        Err(_) => return None,
    };
    if !fits(&eff, tree) {
        return None;
    }
    match resolve_effective(&eff, tree) {
        Ok(r) => Some(r),
        Err(_) => None,
    }
}

/// The frequency a peripheral instance receives, or `None` when the family
/// does not model its bus.
pub open spec fn peripheral_freq_spec(peripheral: Seq<char>, t: ClockTree, r: ResolvedClocks) -> Option<PeripheralFreq> {
    match first_bus(t.clocks_model(), peripheral) {
        None => None,
        Some(bus) => {
            let is_timer = peripheral.len() >= 3 && peripheral.subrange(0, 3) == "TIM"@;
            Some(PeripheralFreq {
                bus,
                hz: match bus {
                    Bus::Ahb1 => r.hclk_hz,
                    Bus::Apb1 => if is_timer { r.apb1_timer_hz } else { r.pclk1_hz },
                    Bus::Apb2 => if is_timer { r.apb2_timer_hz } else { r.pclk2_hz },
                },
            })
        },
    }
}

/// The actual frequency a peripheral instance receives: its bus clock, or the
/// timer clock for a timer on an APB bus.
pub fn peripheral_freq(peripheral: &str, tree: &ClockTree, r: &ResolvedClocks) -> (f: Option<PeripheralFreq>)
    ensures
        f == peripheral_freq_spec(peripheral@, *tree, *r),
{
    let bus = match tree.peripheral_bus(peripheral) {
        Some(b) => b,
        None => return None,
    };
    let is_timer = starts_with(peripheral, "TIM");
    proof {
        reveal_strlit("TIM");
    }
    let hz = match bus {
        Bus::Ahb1 => r.hclk_hz,
        Bus::Apb1 => if is_timer { r.apb1_timer_hz } else { r.pclk1_hz },
        Bus::Apb2 => if is_timer { r.apb2_timer_hz } else { r.pclk2_hz },
    };
    Some(PeripheralFreq { bus, hz })
}

// --- messages --------------------------------------------------------------

/// A frequency in MHz, dropping a trailing `.0`: `45_000_000` → `"45"`,
/// `22_500_000` → `"22.5"` (tenths, truncated).
pub open spec fn mhz_spec(hz: u32) -> Seq<char> {
    if hz % 1_000_000 == 0 {
        dec_digits((hz / 1_000_000) as nat)
    } else {
        let tenths = (hz as int * 10 / 1_000_000) as nat;
        dec_digits(tenths / 10) + "."@ + dec_digits(tenths % 10)
    }
}

/// Format a frequency in MHz, dropping a trailing `.0`.
pub fn mhz(hz: u32) -> (s: String)
    ensures
        s@ == mhz_spec(hz),
{
    if hz % 1_000_000 == 0 {
        u64_to_string((hz / 1_000_000) as u64)
    } else {
        let tenths = (hz as u64 * 10 / 1_000_000) as u64;
        let mut s = u64_to_string(tenths / 10);
        s.append(".");
        s.append(u64_to_string(tenths % 10).as_str());
        s
    }
}

/// The values joined by `", "`.
pub open spec fn join_values(vs: Seq<u32>) -> Seq<char>
    decreases vs.len(),
{
    if vs.len() == 0 {
        Seq::empty()
    } else if vs.len() == 1 {
        dec_digits(vs[0] as nat)
    } else {
        join_values(vs.drop_last()) + ", "@ + dec_digits(vs.last() as nat)
    }
}

/// A value set rendered as `{1, 2, 4}`.
pub open spec fn set_str_spec(vs: Seq<u32>) -> Seq<char> {
    "{"@ + join_values(vs) + "}"@
}

fn set_str(values: &[u32]) -> (s: String)
    ensures
        s@ == set_str_spec(values@),
{
    let mut s = String::from_str("{");
    let mut i: usize = 0;
    while i < values.len()
        invariant
            0 <= i <= values@.len(),
            s@ == "{"@ + join_values(values@.take(i as int)),
        decreases values@.len() - i,
    {
        assert(values@.take(i + 1).drop_last() =~= values@.take(i as int));
        if i > 0 {
            s.append(", ");
        } else {
            assert(values@.take(0) =~= Seq::<u32>::empty());
        }
        s.append(u64_to_string(values[i] as u64).as_str());
        i += 1;
    }
    assert(values@.take(values@.len() as int) =~= values@);
    s.append("}");
    s
}

pub open spec fn abs_diff(a: int, b: int) -> int {
    if a >= b {
        a - b
    } else {
        b - a
    }
}

/// The USART divider rounded from `pclk / baud`, clamped to `0xFFFF`.
pub open spec fn baud_divider(pclk: u32, baud: u32) -> int {
    let d = (pclk + baud / 2) / baud as int;
    if d > 0xFFFF {
        0xFFFF
    } else {
        d
    }
}

/// `None` when `baud` is reachable from `pclk` within 2% (16× oversampling,
/// USARTDIV in `1..=0xFFFF`); otherwise the closest realizable baud.
pub open spec fn unreachable_baud_spec(pclk: u32, baud: u32) -> Option<u32> {
    if baud == 0 {
        None
    } else if baud_divider(pclk, baud) == 0 {
        Some(0)
    } else {
        let realized = pclk as int / baud_divider(pclk, baud);
        if abs_diff(realized, baud as int) * 50 <= baud {
            None
        } else {
            Some(realized as u32)
        }
    }
}

fn unreachable_baud(pclk: u32, baud: u32) -> (r: Option<u32>)
    ensures
        r == unreachable_baud_spec(pclk, baud),
{
    if baud == 0 {
        return None;
    }
    let mut div: u64 = (pclk as u64 + baud as u64 / 2) / baud as u64;
    if div == 0 {
        return Some(0);
    }
    if div > 0xFFFF {
        div = 0xFFFF;
    }
    let realized = (pclk as u64 / div) as u32;
    let diff: u64 = if realized >= baud { (realized - baud) as u64 } else { (baud - realized) as u64 };
    if diff * 50 <= baud as u64 {
        None
    } else {
        Some(realized)
    }
}

/// A percent error with one decimal, e.g. `"3.5%"` (tenths truncated).
pub open spec fn pct_error_spec(realized: u32, baud: u32) -> Seq<char> {
    let tenths = (abs_diff(realized as int, baud as int) * 1000 / baud as int) as nat;
    dec_digits(tenths / 10) + "."@ + dec_digits(tenths % 10) + "%"@
}

fn pct_error(realized: u32, baud: u32) -> (s: String)
    requires
        baud > 0,
    ensures
        s@ == pct_error_spec(realized, baud),
{
    let diff: u64 = if realized >= baud { (realized - baud) as u64 } else { (baud - realized) as u64 };
    let tenths = diff * 1000 / baud as u64;
    let mut s = u64_to_string(tenths / 10);
    s.append(".");
    s.append(u64_to_string(tenths % 10).as_str());
    s.append("%");
    s
}

pub open spec fn pow2(k: nat) -> nat
    decreases k,
{
    if k == 0 {
        1
    } else {
        2 * pow2((k - 1) as nat)
    }
}

/// The number of binary digits of `a`.
pub open spec fn bit_length(a: nat) -> nat
    decreases a,
{
    if a == 0 {
        0
    } else {
        1 + bit_length(a / 2)
    }
}

/// `a` rounded to the nearest value with 53 significant bits (ties to even),
/// as converting it to `f64` does.
pub open spec fn to_f64_grid(a: nat) -> nat {
    if a < pow2(53) {
        a
    } else {
        let k = (bit_length(a) - 53) as nat;
        let q = a / pow2(k);
        let r = a % pow2(k);
        if 2 * r > pow2(k) || (2 * r == pow2(k) && q % 2 == 1) {
            (q + 1) * pow2(k)
        } else {
            q * pow2(k)
        }
    }
}

/// Thousandths of `num / 2^k`, rounded to nearest with ties to even.
pub open spec fn thousandths_rounded(num: nat, k: nat) -> nat {
    let q = num * 1000 / pow2(k);
    let r = num * 1000 % pow2(k);
    if 2 * r > pow2(k) || (2 * r == pow2(k) && q % 2 == 1) {
        q + 1
    } else {
        q
    }
}

/// `n` as exactly three decimal digits.
pub open spec fn three_digits(n: nat) -> Seq<char> {
    seq![
        crate::text::digit_char(n / 100 % 10),
        crate::text::digit_char(n / 10 % 10),
        crate::text::digit_char(n % 10),
    ]
}

/// `a / 2^k` written with three decimals, the way `{:.3}` renders the `f64`
/// quotient `a as f64 / (1u64 << k) as f64` (exact conversion to the 53-bit
/// grid, exact division by a power of two, round half to even).
pub open spec fn dyadic_3dp_spec(a: u64, k: nat) -> Seq<char> {
    let t = thousandths_rounded(to_f64_grid(a as nat), k);
    dec_digits(t / 1000) + "."@ + three_digits(t % 1000)
}

proof fn lemma_pow2_pos(k: nat)
    ensures
        pow2(k) >= 1,
    decreases k,
{
    if k > 0 {
        lemma_pow2_pos((k - 1) as nat);
    }
}

proof fn lemma_pow2_add(a: nat, b: nat)
    ensures
        pow2(a + b) == pow2(a) * pow2(b),
    decreases a,
{
    if a == 0 {
        assert(pow2(0) == 1);
        assert(a + b == b);
    } else {
        let a1 = (a - 1) as nat;
        lemma_pow2_add(a1, b);
        let x = pow2(a1);
        let y = pow2(b);
        assert(pow2(a1 + b) == x * y);
        assert(a + b == (a1 + b) + 1);
        assert(pow2((a1 + b) + 1) == 2 * pow2(a1 + b));
        assert(pow2(a1 + 1) == 2 * x);
        assert(a == a1 + 1);
        assert(2 * (x * y) == (2 * x) * y) by (nonlinear_arith);
    }
}

proof fn lemma_pow2_mono(a: nat, b: nat)
    requires
        a <= b,
    ensures
        pow2(a) <= pow2(b),
    decreases b,
{
    if a < b {
        lemma_pow2_mono(a, (b - 1) as nat);
        lemma_pow2_pos((b - 1) as nat);
    }
}

proof fn lemma_bit_length(a: nat)
    requires
        a > 0,
    ensures
        bit_length(a) >= 1,
        pow2((bit_length(a) - 1) as nat) <= a < pow2(bit_length(a)),
    decreases a,
{
    reveal_with_fuel(pow2, 2);
    if a / 2 > 0 {
        lemma_bit_length(a / 2);
        let l1 = bit_length(a / 2);
        assert(bit_length(a) == l1 + 1);
        assert(pow2((l1 + 1) as nat) == 2 * pow2(l1));
        assert(pow2(l1) == 2 * pow2((l1 - 1) as nat));
    } else {
        assert(a == 1);
        assert(bit_length(0) == 0);
        assert(bit_length(a) == 1);
    }
}

proof fn lemma_pow2_values()
    ensures
        pow2(53) == 0x20_0000_0000_0000,
        pow2(63) == 0x8000_0000_0000_0000,
        pow2(64) == 0x1_0000_0000_0000_0000,
        pow2(100) == 0x10_0000_0000_0000_0000_0000_0000,
        pow2(11) == 2048,
        pow2(31) == 0x8000_0000,
        pow2(22) == 0x40_0000,
{
    reveal_with_fuel(pow2, 6);
    assert(pow2(5) == 32);
    assert(pow2(1) == 2);
    assert(pow2(3) == 8);
    lemma_pow2_add(5, 5);
    assert(pow2(10) == 1024);
    lemma_pow2_add(10, 1);
    assert(pow2(11) == 2048);
    lemma_pow2_add(10, 10);
    assert(pow2(20) == 0x10_0000);
    lemma_pow2_add(20, 2);
    assert(pow2(22) == 0x40_0000);
    lemma_pow2_add(20, 10);
    assert(pow2(30) == 0x4000_0000);
    lemma_pow2_add(30, 1);
    assert(pow2(31) == 0x8000_0000);
    lemma_pow2_add(20, 20);
    assert(pow2(40) == 0x100_0000_0000);
    lemma_pow2_add(40, 10);
    assert(pow2(50) == 0x4_0000_0000_0000);
    lemma_pow2_add(50, 3);
    assert(pow2(53) == 0x20_0000_0000_0000);
    lemma_pow2_add(50, 10);
    assert(pow2(60) == 0x1000_0000_0000_0000);
    lemma_pow2_add(60, 3);
    assert(pow2(63) == 0x8000_0000_0000_0000);
    lemma_pow2_add(63, 1);
    assert(pow2(64) == 0x1_0000_0000_0000_0000);
    lemma_pow2_add(50, 50);
}

/// `2^k` as a machine integer.
fn pow2_u128(k: u32) -> (p: u128)
    requires
        k <= 100,
    ensures
        p as nat == pow2(k as nat),
{
    let mut p: u128 = 1;
    let mut i: u32 = 0;
    while i < k
        invariant
            i <= k <= 100,
            p as nat == pow2(i as nat),
        decreases k - i,
    {
        proof {
            lemma_pow2_mono((i + 1) as nat, 100);
            lemma_pow2_values();
        }
        p = p * 2;
        i += 1;
    }
    p
}

fn bit_length_u64(a: u64) -> (l: u32)
    ensures
        l as nat == bit_length(a as nat),
        l <= 64,
{
    let mut x: u64 = a;
    let mut l: u32 = 0;
    assert(pow2(0) == 1);
    assert(x as nat * pow2(0) == a as nat);
    while x > 0
        invariant
            l + bit_length(x as nat) == bit_length(a as nat),
            l <= 64,
            x as nat * pow2(l as nat) <= a as nat,
            l > 0 ==> x < 0x8000_0000_0000_0000,
        decreases x,
    {
        proof {
            lemma_pow2_pos(l as nat);
            if l >= 63 {
                lemma_pow2_mono(63, l as nat);
                lemma_pow2_values();
                assert(x as nat * pow2(l as nat) >= pow2(l as nat)) by (nonlinear_arith)
                    requires x >= 1, pow2(l as nat) >= 1;
                if l >= 64 {
                    lemma_pow2_mono(64, l as nat);
                    lemma_pow2_values();
                }
            }
            assert((x / 2) as nat * pow2((l + 1) as nat) <= x as nat * pow2(l as nat)) by (nonlinear_arith)
                requires pow2((l + 1) as nat) == 2 * pow2(l as nat);
        }
        x = x / 2;
        l = l + 1;
    }
    l
}

fn to_f64_grid_exec(a: u64) -> (g: u128)
    ensures
        g as nat == to_f64_grid(a as nat),
        g as nat <= 0x1_0000_0000_0000_0000,
{
    let p53 = pow2_u128(53);
    if (a as u128) < p53 {
        return a as u128;
    }
    let l = bit_length_u64(a);
    proof {
        lemma_pow2_pos(53);
        lemma_bit_length(a as nat);
        if l < 53 {
            lemma_pow2_mono(l as nat, 53);
        }
        assert(l >= 53);
    }
    let k = l - 53;
    let pk = pow2_u128(k);
    proof {
        lemma_pow2_pos(k as nat);
        lemma_pow2_mono(k as nat, 11);
        lemma_pow2_values();
    }
    let q = a as u128 / pk;
    let r = a as u128 % pk;
    proof {
        lemma_pow2_pos(k as nat);
        lemma_pow2_add(53, k as nat);
        assert(l == 53 + k);
        assert(q * pk <= a as u128) by (nonlinear_arith)
            requires q == a as u128 / pk, pk >= 1;
        assert(q < pow2(53)) by (nonlinear_arith)
            requires q == a as u128 / pk, pk >= 1, (a as nat) < pow2(53) * pk;
        lemma_pow2_mono(l as nat, 64);
        lemma_pow2_values();
        assert((q + 1) * pk <= pow2(53) * pk) by (nonlinear_arith)
            requires q < pow2(53), pk >= 1;
    }
    if 2 * r > pk || (2 * r == pk && q % 2 == 1) {
        (q + 1) * pk
    } else {
        q * pk
    }
}

/// Render `a / 2^k` with three decimals, as `{:.3}` renders the `f64`
/// quotient `a as f64 / 2^k`.
pub fn dyadic_3dp(a: u64, k: u32) -> (s: String)
    requires
        1 <= k <= 31,
    ensures
        s@ == dyadic_3dp_spec(a, k as nat),
{
    let g = to_f64_grid_exec(a);
    let den = pow2_u128(k);
    proof {
        lemma_pow2_mono(1, k as nat);
        reveal_with_fuel(pow2, 2);
    }
    let num = g * 1000;
    let q = num / den;
    let r = num % den;
    proof {
        lemma_pow2_mono(k as nat, 31);
        lemma_pow2_add(31, 22);
        lemma_pow2_values();
    }
    let t: u128 = if 2 * r > den || (2 * r == den && q % 2 == 1) { q + 1 } else { q };
    proof {
        assert(q <= num / 2) by (nonlinear_arith)
            requires q == num / den, den >= 2;
    }
    let whole = (t / 1000) as u64;
    let frac = (t % 1000) as u64;
    let mut s = u64_to_string(whole);
    s.append(".");
    s.append(digit_only(frac / 100 % 10));
    s.append(digit_only(frac / 10 % 10));
    s.append(digit_only(frac % 10));
    proof {
        assert(s@ =~= dyadic_3dp_spec(a, k as nat));
    }
    s
}

fn digit_only(d: u64) -> (s: &'static str)
    requires
        d < 10,
    ensures
        s@ == seq![crate::text::digit_char(d as nat)],
{
    crate::text::digit_str(d)
}

// --- validation --------------------------------------------------------------

/// A clock-constraint conflict as plain values: `(node, reason)`.
pub open spec fn cc_model(c: Conflict) -> (Seq<char>, Seq<char>) {
    match c {
        Conflict::ClockConstraint { node, reason } => (node@, reason@),
        _ => (Seq::empty(), Seq::empty()),
    }
}

pub open spec fn cc_models(s: Seq<Conflict>) -> Seq<(Seq<char>, Seq<char>)> {
    s.map_values(|c: Conflict| cc_model(c))
}

pub open spec fn all_clock_constraints(s: Seq<Conflict>) -> bool {
    forall|i: int| 0 <= i < s.len() ==> #[trigger] s[i] is ClockConstraint
}

/// "PLL X = v is outside the valid lo–hi range".
pub open spec fn range_msg(name: Seq<char>, v: u32, lo: u32, hi: u32) -> Seq<char> {
    "PLL "@ + name + " = "@ + dec_digits(v as nat) + " is outside the valid "@ + dec_digits(lo as nat) + "\u{2013}"@
        + dec_digits(hi as nat) + " range"@
}

pub open spec fn one_if(c: bool, x: (Seq<char>, Seq<char>)) -> Seq<(Seq<char>, Seq<char>)> {
    if c {
        seq![x]
    } else {
        Seq::empty()
    }
}

/// Divider legality of the PLL, when it drives SYSCLK.
pub open spec fn pll_checks(e: Effective, t: ClockTree) -> Seq<(Seq<char>, Seq<char>)> {
    let pll = t.pll_model();
    if e.source != SysclkSource::Pll {
        Seq::empty()
    } else {
        one_if(!(pll.m.min <= e.pll_m <= pll.m.max), ("PLL"@, range_msg("M"@, e.pll_m, pll.m.min, pll.m.max)))
            + one_if(!(pll.n.min <= e.pll_n <= pll.n.max), ("PLL"@, range_msg("N"@, e.pll_n, pll.n.min, pll.n.max)))
            + one_if(!pll.p@.contains(e.pll_p), ("PLL"@, "PLL P = "@ + dec_digits(e.pll_p as nat)
            + " is not one of the allowed dividers "@ + set_str_spec(pll.p@)))
            + match e.pll_q {
            Some(q) => one_if(!(pll.q.min <= q <= pll.q.max), ("PLL"@, range_msg("Q"@, q, pll.q.min, pll.q.max))),
            None => Seq::empty(),
        }
    }
}

pub open spec fn presc_check(t: ClockTree, node: Seq<char>, presc: u32, bus: Bus) -> Seq<(Seq<char>, Seq<char>)> {
    one_if(!t.prescalers_model(bus).contains(presc), (node, node + " prescaler "@ + dec_digits(presc as nat)
        + " is not one of the allowed values "@ + set_str_spec(t.prescalers_model(bus))))
}

/// Prescaler legality, whatever the SYSCLK source.
pub open spec fn presc_checks(e: Effective, t: ClockTree) -> Seq<(Seq<char>, Seq<char>)> {
    presc_check(t, "AHB"@, e.ahb_presc, Bus::Ahb1) + presc_check(t, "APB1"@, e.apb1_presc, Bus::Apb1) + presc_check(
        t,
        "APB2"@,
        e.apb2_presc,
        Bus::Apb2,
    )
}

/// "PLL VCO <what> = f MHz is outside the lo–hi MHz range".
pub open spec fn vco_msg(what: Seq<char>, f: u32, lo: u32, hi: u32) -> Seq<char> {
    "PLL VCO "@ + what + " = "@ + mhz_spec(f) + " MHz is outside the "@ + mhz_spec(lo) + "\u{2013}"@ + mhz_spec(hi)
        + " MHz range"@
}

/// VCO input/output ranges, when the PLL drives SYSCLK.
pub open spec fn vco_checks(e: Effective, t: ClockTree, r: ResolvedClocks) -> Seq<(Seq<char>, Seq<char>)> {
    let pll = t.pll_model();
    if e.source != SysclkSource::Pll {
        Seq::empty()
    } else {
        one_if(!(pll.vco_in.min_hz <= r.pll_vco_in_hz <= pll.vco_in.max_hz), ("PLL"@, vco_msg("input"@, r.pll_vco_in_hz, pll.vco_in.min_hz, pll.vco_in.max_hz)))
            + one_if(!(pll.vco_out.min_hz <= r.pll_vco_out_hz <= pll.vco_out.max_hz), ("PLL"@, vco_msg("output"@, r.pll_vco_out_hz, pll.vco_out.min_hz, pll.vco_out.max_hz)))
    }
}

pub open spec fn limit_check(node: Seq<char>, freq: u32, limit: u32) -> Seq<(Seq<char>, Seq<char>)> {
    one_if(freq > limit, (node, node + " = "@ + mhz_spec(freq) + " MHz exceeds the "@ + mhz_spec(limit) + " MHz limit"@))
}

/// Over-clocked nodes, in the order SYSCLK, AHB, APB1, APB2.
pub open spec fn limit_checks(t: ClockTree, r: ResolvedClocks) -> Seq<(Seq<char>, Seq<char>)> {
    let l = t.limits_model();
    limit_check("SYSCLK"@, r.sysclk_hz, l.max_sysclk_hz) + limit_check("AHB"@, r.hclk_hz, l.max_ahb_hz)
        + limit_check("APB1"@, r.pclk1_hz, l.max_apb1_hz) + limit_check("APB2"@, r.pclk2_hz, l.max_apb2_hz)
}

pub open spec fn has_prefix(s: Seq<char>, p: Seq<char>) -> bool {
    p.len() <= s.len() && s.subrange(0, p.len() as int) == p
}

pub open spec fn clock_bus_name(b: Bus) -> Seq<char> {
    match b {
        Bus::Ahb1 => "AHB1"@,
        Bus::Apb1 => "APB1"@,
        Bus::Apb2 => "APB2"@,
    }
}

/// The baud-reachability conflict of one peripheral table, if any.
pub open spec fn baud_one(
    entry: (String, crate::compiler::config::Peripheral),
    t: ClockTree,
    r: ResolvedClocks,
) -> Seq<(Seq<char>, Seq<char>)> {
    let name = peripheral_name_spec(entry.0@);
    if !(has_prefix(name, "USART"@) || has_prefix(name, "UART"@)) {
        Seq::empty()
    } else {
        match integer_spec(entry.1.0@, "baud"@) {
            Some(b) => if b <= 0 {
                Seq::empty()
            } else {
                match peripheral_freq_spec(name, t, r) {
                    None => Seq::empty(),
                    Some(pf) => match unreachable_baud_spec(pf.hz, b as u32) {
                        None => Seq::empty(),
                        Some(realized) => seq![(name, dec_digits(b as nat) + " baud is unreachable from "@
                            + mhz_spec(pf.hz) + " MHz "@ + clock_bus_name(pf.bus) + " (closest "@
                            + dec_digits(realized as nat) + " baud, "@ + pct_error_spec(realized, b as u32)
                            + " error exceeds 2% tolerance)"@)],
                    },
                }
            },
            None => Seq::empty(),
        }
    }
}

/// UART baud reachability, in peripheral order.
pub open spec fn baud_checks(
    ps: Seq<(String, crate::compiler::config::Peripheral)>,
    t: ClockTree,
    r: ResolvedClocks,
) -> Seq<(Seq<char>, Seq<char>)>
    decreases ps.len(),
{
    if ps.len() == 0 {
        Seq::empty()
    } else {
        baud_checks(ps.drop_last(), t, r) + baud_one(ps.last(), t, r)
    }
}

pub open spec fn clamp_bits(v: i64) -> u32 {
    if v < 1 {
        1
    } else if v > 31 {
        31
    } else {
        v as u32
    }
}

/// The PWM-timing conflict of one peripheral table, if any.
pub open spec fn pwm_one(entry: (String, crate::compiler::config::Peripheral), clock_hz: Option<u64>) -> Seq<(Seq<char>, Seq<char>)> {
    let name = peripheral_name_spec(entry.0@);
    if !has_prefix(name, "TIM"@) {
        Seq::empty()
    } else {
        match integer_spec(entry.1.0@, "frequency_hz"@) {
            Some(freq) => if freq <= 0 {
                Seq::empty()
            } else {
                let bits = clamp_bits(
                    match integer_spec(entry.1.0@, "duty_resolution_bits"@) {
                        Some(v) => v,
                        None => 16,
                    },
                );
                let arr = pow2(bits as nat);
                let timer_clk: u64 = match clock_hz {
                    Some(c) => if c >= 1 { c } else { 1 },
                    None => 180_000_000,
                };
                if (freq as u64) as int * arr > timer_clk as int {
                    seq![(name, dec_digits(freq as nat) + " Hz at "@ + dec_digits(bits as nat)
                        + "-bit duty resolution is unachievable: a "@ + mhz_spec(timer_clk as u32)
                        + " MHz timer clock divided by "@ + dec_digits(arr) + " (2^"@ + dec_digits(bits as nat)
                        + " from duty_resolution_bits) yields PSC < 1, so the generated PWM would silently run at ~"@
                        + dyadic_3dp_spec(timer_clk, bits as nat) + " Hz instead of "@ + dec_digits(freq as nat)
                        + " Hz \u{2014} lower duty_resolution_bits or raise frequency_hz"@)]
                } else {
                    Seq::empty()
                }
            },
            None => Seq::empty(),
        }
    }
}

/// PWM timing reachability, in peripheral order.
pub open spec fn pwm_checks(ps: Seq<(String, crate::compiler::config::Peripheral)>, clock_hz: Option<u64>) -> Seq<
    (Seq<char>, Seq<char>),
>
    decreases ps.len(),
{
    if ps.len() == 0 {
        Seq::empty()
    } else {
        pwm_checks(ps.drop_last(), clock_hz) + pwm_one(ps.last(), clock_hz)
    }
}

/// The conflicts that validating `config`'s clock tree reports, as `(node,
/// reason)` pairs in report order: a folding failure alone; else the divider
/// and prescaler legality checks, and only when those pass the VCO ranges,
/// bus limits, UART baud and PWM timing checks.
pub open spec fn validate_spec(config: Config, t: ClockTree) -> Seq<(Seq<char>, Seq<char>)> {
    match effective_spec(config.clocks, t) {
        Err(f) => seq![fold_conflict(f)],
        Ok(e) => {
            let structural = pll_checks(e, t) + presc_checks(e, t);
            if structural.len() > 0 {
                structural
            } else {
                match zero_divider(e) {
                    Some(node) => seq![fold_conflict((node, Seq::empty(), true))],
                    None => {
                        let r = resolved_spec(e, t);
                        vco_checks(e, t, r) + limit_checks(t, r) + baud_checks(config.peripherals@, t, r)
                            + pwm_checks(config.peripherals@, config.device.clock_hz)
                    },
                }
            }
        },
    }
}

fn push_cc(out: &mut Vec<Conflict>, node: &str, reason: String)
    requires
        all_clock_constraints(old(out)@),
    ensures
        all_clock_constraints(final(out)@),
        cc_models(final(out)@) == cc_models(old(out)@).push((node@, reason@)),
{
    let ghost before = out@;
    out.push(Conflict::ClockConstraint { node: owned(node), reason });
    assert(cc_models(out@) =~= cc_models(before).push((node@, reason@)));
}

fn slice_contains(s: &[u32], v: u32) -> (r: bool)
    ensures
        r == s@.contains(v),
{
    let mut i: usize = 0;
    while i < s.len()
        invariant
            0 <= i <= s@.len(),
            forall|j: int| 0 <= j < i ==> s@[j] != v,
        decreases s@.len() - i,
    {
        if s[i] == v {
            assert(s@[i as int] == v);
            return true;
        }
        i += 1;
    }
    false
}

fn range_message(name: &str, v: u32, lo: u32, hi: u32) -> (s: String)
    ensures
        s@ == range_msg(name@, v, lo, hi),
{
    let mut s = String::from_str("PLL ");
    s.append(name);
    s.append(" = ");
    s.append(u64_to_string(v as u64).as_str());
    s.append(" is outside the valid ");
    s.append(u64_to_string(lo as u64).as_str());
    s.append("\u{2013}");
    s.append(u64_to_string(hi as u64).as_str());
    s.append(" range");
    s
}

fn check_pll(out: &mut Vec<Conflict>, eff: &Effective, tree: &ClockTree)
    requires
        all_clock_constraints(old(out)@),
    ensures
        all_clock_constraints(final(out)@),
        cc_models(final(out)@) == cc_models(old(out)@) + pll_checks(*eff, *tree),
{
    let ghost before = cc_models(out@);
    if eff.source != SysclkSource::Pll {
        assert(cc_models(out@) =~= before + pll_checks(*eff, *tree));
        return;
    }
    let pll = tree.pll();
    if !pll.m.contains(eff.pll_m) {
        push_cc(out, "PLL", range_message("M", eff.pll_m, pll.m.min, pll.m.max));
    }
    if !pll.n.contains(eff.pll_n) {
        push_cc(out, "PLL", range_message("N", eff.pll_n, pll.n.min, pll.n.max));
    }
    if !slice_contains(pll.p, eff.pll_p) {
        let mut msg = String::from_str("PLL P = ");
        msg.append(u64_to_string(eff.pll_p as u64).as_str());
        msg.append(" is not one of the allowed dividers ");
        msg.append(set_str(pll.p).as_str());
        push_cc(out, "PLL", msg);
    }
    if let Some(q) = eff.pll_q {
        if !pll.q.contains(q) {
            push_cc(out, "PLL", range_message("Q", q, pll.q.min, pll.q.max));
        }
    }
    assert(cc_models(out@) =~= before + pll_checks(*eff, *tree));
}

fn check_presc(out: &mut Vec<Conflict>, tree: &ClockTree, node: &str, presc: u32, bus: Bus)
    requires
        all_clock_constraints(old(out)@),
    ensures
        all_clock_constraints(final(out)@),
        cc_models(final(out)@) == cc_models(old(out)@) + presc_check(*tree, node@, presc, bus),
{
    let ghost before = cc_models(out@);
    let ps = tree.prescalers(bus);
    if !slice_contains(ps, presc) {
        let mut msg = owned(node);
        msg.append(" prescaler ");
        msg.append(u64_to_string(presc as u64).as_str());
        msg.append(" is not one of the allowed values ");
        msg.append(set_str(ps).as_str());
        push_cc(out, node, msg);
    }
    assert(cc_models(out@) =~= before + presc_check(*tree, node@, presc, bus));
}

fn vco_message(what: &str, f: u32, lo: u32, hi: u32) -> (s: String)
    ensures
        s@ == vco_msg(what@, f, lo, hi),
{
    let mut s = String::from_str("PLL VCO ");
    s.append(what);
    s.append(" = ");
    s.append(mhz(f).as_str());
    s.append(" MHz is outside the ");
    s.append(mhz(lo).as_str());
    s.append("\u{2013}");
    s.append(mhz(hi).as_str());
    s.append(" MHz range");
    s
}

fn check_limit(out: &mut Vec<Conflict>, node: &str, freq: u32, limit: u32)
    requires
        all_clock_constraints(old(out)@),
    ensures
        all_clock_constraints(final(out)@),
        cc_models(final(out)@) == cc_models(old(out)@) + limit_check(node@, freq, limit),
{
    let ghost before = cc_models(out@);
    if freq > limit {
        let mut msg = owned(node);
        msg.append(" = ");
        msg.append(mhz(freq).as_str());
        msg.append(" MHz exceeds the ");
        msg.append(mhz(limit).as_str());
        msg.append(" MHz limit");
        push_cc(out, node, msg);
    }
    assert(cc_models(out@) =~= before + limit_check(node@, freq, limit));
}

fn check_baud(out: &mut Vec<Conflict>, entry: &(String, crate::compiler::config::Peripheral), tree: &ClockTree, r: &ResolvedClocks)
    requires
        all_clock_constraints(old(out)@),
    ensures
        all_clock_constraints(final(out)@),
        cc_models(final(out)@) == cc_models(old(out)@) + baud_one(*entry, *tree, *r),
{
    let ghost before = cc_models(out@);
    let name = peripheral_name(entry.0.as_str());
    if !(starts_with(name.as_str(), "USART") || starts_with(name.as_str(), "UART")) {
        assert(cc_models(out@) =~= before + baud_one(*entry, *tree, *r));
        return;
    }
    let b = match entry.1.integer("baud") {
        Some(b) => b,
        None => {
            assert(cc_models(out@) =~= before + baud_one(*entry, *tree, *r));
            return;
        },
    };
    if b <= 0 {
        assert(cc_models(out@) =~= before + baud_one(*entry, *tree, *r));
        return;
    }
    let pf = match peripheral_freq(name.as_str(), tree, r) {
        Some(pf) => pf,
        None => {
            assert(cc_models(out@) =~= before + baud_one(*entry, *tree, *r));
            return;
        },
    };
    let baud = b as u32;
    match unreachable_baud(pf.hz, baud) {
        Some(realized) => {
            let mut msg = u64_to_string(b as u64);
            msg.append(" baud is unreachable from ");
            msg.append(mhz(pf.hz).as_str());
            msg.append(" MHz ");
            msg.append(pf.bus.name());
            msg.append(" (closest ");
            msg.append(u64_to_string(realized as u64).as_str());
            msg.append(" baud, ");
            msg.append(pct_error(realized, baud).as_str());
            msg.append(" error exceeds 2% tolerance)");
            push_cc(out, name.as_str(), msg);
        },
        None => {},
    }
    assert(cc_models(out@) =~= before + baud_one(*entry, *tree, *r));
}

fn shift_pow2(bits: u32) -> (r: u64)
    requires
        bits <= 31,
    ensures
        r as nat == pow2(bits as nat),
{
    let p = pow2_u128(bits);
    proof {
        lemma_pow2_mono(bits as nat, 31);
        lemma_pow2_values();
    }
    p as u64
}

fn check_pwm(out: &mut Vec<Conflict>, entry: &(String, crate::compiler::config::Peripheral), clock_hz: Option<u64>)
    requires
        all_clock_constraints(old(out)@),
    ensures
        all_clock_constraints(final(out)@),
        cc_models(final(out)@) == cc_models(old(out)@) + pwm_one(*entry, clock_hz),
{
    let ghost before = cc_models(out@);
    let name = peripheral_name(entry.0.as_str());
    if !starts_with(name.as_str(), "TIM") {
        assert(cc_models(out@) =~= before + pwm_one(*entry, clock_hz));
        return;
    }
    let freq = match entry.1.integer("frequency_hz") {
        Some(f) => f,
        None => {
            assert(cc_models(out@) =~= before + pwm_one(*entry, clock_hz));
            return;
        },
    };
    if freq <= 0 {
        assert(cc_models(out@) =~= before + pwm_one(*entry, clock_hz));
        return;
    }
    let raw = match entry.1.integer("duty_resolution_bits") {
        Some(v) => v,
        None => 16,
    };
    let bits: u32 = if raw < 1 {
        1
    } else if raw > 31 {
        31
    } else {
        raw as u32
    };
    let arr_plus_one = shift_pow2(bits);
    let timer_clk: u64 = match clock_hz {
        Some(c) => if c >= 1 { c } else { 1 },
        None => 180_000_000,
    };
    let unreachable = match (freq as u64).checked_mul(arr_plus_one) {
        Some(divisor) => divisor > timer_clk,
        None => true,
    };
    if unreachable {
        let mut msg = u64_to_string(freq as u64);
        msg.append(" Hz at ");
        msg.append(u64_to_string(bits as u64).as_str());
        msg.append("-bit duty resolution is unachievable: a ");
        msg.append(mhz(timer_clk as u32).as_str());
        msg.append(" MHz timer clock divided by ");
        msg.append(u64_to_string(arr_plus_one).as_str());
        msg.append(" (2^");
        msg.append(u64_to_string(bits as u64).as_str());
        msg.append(" from duty_resolution_bits) yields PSC < 1, so the generated PWM would silently run at ~");
        msg.append(dyadic_3dp(timer_clk, bits).as_str());
        msg.append(" Hz instead of ");
        msg.append(u64_to_string(freq as u64).as_str());
        msg.append(" Hz \u{2014} lower duty_resolution_bits or raise frequency_hz");
        push_cc(out, name.as_str(), msg);
    }
    assert(cc_models(out@) =~= before + pwm_one(*entry, clock_hz));
}

/// The frequency checks that run once the dividers are legal.
proof fn lemma_structural_ok_fits(e: Effective, t: ClockTree)
    requires
        tree_ok(t),
        pll_checks(e, t).len() == 0,
        presc_checks(e, t).len() == 0,
    ensures
        fits_u32(e, t),
{
    if zero_divider(e) is None {
        lemma_osc_bound(t, Oscillator::Hsi);
        lemma_osc_bound(t, Oscillator::Hse);
        lemma_osc_bound(t, e.pll_source);
        let (sys, vin, vout) = core_freqs(e, t);
        if e.source == SysclkSource::Pll {
            let pll = t.pll_model();
            assert(pll.m.min <= e.pll_m <= pll.m.max) by {
                assert(one_if(!(pll.m.min <= e.pll_m <= pll.m.max), ("PLL"@, range_msg("M"@, e.pll_m, pll.m.min, pll.m.max))).len() == 0);
            }
            assert(pll.n.min <= e.pll_n <= pll.n.max) by {
                if !(pll.n.min <= e.pll_n <= pll.n.max) {
                    assert(pll_checks(e, t).len() > 0);
                }
            }
            assert(pll.p@.contains(e.pll_p)) by {
                if !pll.p@.contains(e.pll_p) {
                    assert(pll_checks(e, t).len() > 0);
                }
            }
            let i = choose|i: int| 0 <= i < pll.p@.len() && pll.p@[i] == e.pll_p;
            assert(e.pll_p >= 2);
            let o = osc_hz_spec(t, e.pll_source);
            assert(o / e.pll_m <= 8_000_000) by (nonlinear_arith)
                requires o <= 16_000_000, e.pll_m >= 2;
            assert(vin <= 8_000_000);
            assert(vout == vin * e.pll_n);
            assert(vout <= 3_456_000_000) by (nonlinear_arith)
                requires vout == vin * e.pll_n, 0 <= vin <= 8_000_000, e.pll_n <= 432;
            assert(sys <= 1_728_000_000) by (nonlinear_arith)
                requires sys == vout / e.pll_p as int, 0 <= vout <= 3_456_000_000, e.pll_p >= 2;
        }
        assert(0 <= sys <= 1_728_000_000);
        let hclk = sys / e.ahb_presc as int;
        assert(0 <= hclk <= sys) by (nonlinear_arith)
            requires hclk == sys / e.ahb_presc as int, e.ahb_presc >= 1, 0 <= sys;
        let p1 = hclk / e.apb1_presc as int;
        let p2 = hclk / e.apb2_presc as int;
        assert(0 <= p1 <= hclk) by (nonlinear_arith)
            requires p1 == hclk / e.apb1_presc as int, e.apb1_presc >= 1, 0 <= hclk;
        assert(0 <= p2 <= hclk) by (nonlinear_arith)
            requires p2 == hclk / e.apb2_presc as int, e.apb2_presc >= 1, 0 <= hclk;
        let m1 = timer_multiplier_spec(Bus::Apb1, e.apb1_presc);
        let m2 = timer_multiplier_spec(Bus::Apb2, e.apb2_presc);
        assert(p1 * m1 <= 3_456_000_000) by (nonlinear_arith)
            requires 0 <= p1 <= 1_728_000_000, 1 <= m1 <= 2;
        assert(p2 * m2 <= 3_456_000_000) by (nonlinear_arith)
            requires 0 <= p2 <= 1_728_000_000, 1 <= m2 <= 2;
        assert(vout <= 3_456_000_000);
    }
}

/// The conflict reported when the `[clocks]` fields cannot be folded.
pub open spec fn fold_conflict(f: FoldError) -> (Seq<char>, Seq<char>) {
    if f.2 {
        (f.0, f.0 + " divider must not be zero"@)
    } else {
        let node = if f.0 == "PLL"@ { "PLL"@ } else { "SYSCLK"@ };
        let expected = if f.0 == "PLL"@ { "hsi or hse"@ } else { "hsi, hse, or pll"@ };
        (node, "unknown "@ + f.0 + " source "@ + crate::text::str_debug_spec(f.1) + " (expected "@ + expected + ")"@)
    }
}

fn push_fold_error(out: &mut Vec<Conflict>, err: ResolveError)
    requires
        all_clock_constraints(old(out)@),
    ensures
        all_clock_constraints(final(out)@),
        cc_models(final(out)@) == cc_models(old(out)@).push(
            match err {
                ResolveError::UnknownSource { field, value } => fold_conflict((field@, value@, false)),
                ResolveError::ZeroDivider { node } => fold_conflict((node@, Seq::empty(), true)),
            },
        ),
{
    match err {
        ResolveError::UnknownSource { field, value } => {
            let is_pll = str_eq(field, "PLL");
            let node = if is_pll { "PLL" } else { "SYSCLK" };
            let expected = if is_pll { "hsi or hse" } else { "hsi, hse, or pll" };
            let mut msg = String::from_str("unknown ");
            msg.append(field);
            msg.append(" source ");
            msg.append(crate::text::str_debug(value.as_str()).as_str());
            msg.append(" (expected ");
            msg.append(expected);
            msg.append(")");
            push_cc(out, node, msg);
        },
        ResolveError::ZeroDivider { node } => {
            let mut msg = owned(node);
            msg.append(" divider must not be zero");
            push_cc(out, node, msg);
        },
    }
}

fn check_structure(out: &mut Vec<Conflict>, eff: &Effective, tree: &ClockTree)
    requires
        all_clock_constraints(old(out)@),
    ensures
        all_clock_constraints(final(out)@),
        cc_models(final(out)@) == cc_models(old(out)@) + (pll_checks(*eff, *tree) + presc_checks(*eff, *tree)),
{
    let ghost before = cc_models(out@);
    check_pll(out, eff, tree);
    check_presc(out, tree, "AHB", eff.ahb_presc, Bus::Ahb1);
    check_presc(out, tree, "APB1", eff.apb1_presc, Bus::Apb1);
    check_presc(out, tree, "APB2", eff.apb2_presc, Bus::Apb2);
    assert(cc_models(out@) =~= before + (pll_checks(*eff, *tree) + presc_checks(*eff, *tree)));
}

fn check_vco(out: &mut Vec<Conflict>, eff: &Effective, tree: &ClockTree, r: &ResolvedClocks)
    requires
        all_clock_constraints(old(out)@),
    ensures
        all_clock_constraints(final(out)@),
        cc_models(final(out)@) == cc_models(old(out)@) + vco_checks(*eff, *tree, *r),
{
    let ghost before = cc_models(out@);
    let pll = tree.pll();
    if eff.source == SysclkSource::Pll {
        if !pll.vco_in.contains(r.pll_vco_in_hz) {
            push_cc(out, "PLL", vco_message("input", r.pll_vco_in_hz, pll.vco_in.min_hz, pll.vco_in.max_hz));
        }
        if !pll.vco_out.contains(r.pll_vco_out_hz) {
            push_cc(out, "PLL", vco_message("output", r.pll_vco_out_hz, pll.vco_out.min_hz, pll.vco_out.max_hz));
        }
    }
    assert(cc_models(out@) =~= before + vco_checks(*eff, *tree, *r));
}

fn check_limits(out: &mut Vec<Conflict>, tree: &ClockTree, r: &ResolvedClocks)
    requires
        all_clock_constraints(old(out)@),
    ensures
        all_clock_constraints(final(out)@),
        cc_models(final(out)@) == cc_models(old(out)@) + limit_checks(*tree, *r),
{
    let ghost before = cc_models(out@);
    let limits = tree.limits();
    check_limit(out, "SYSCLK", r.sysclk_hz, limits.max_sysclk_hz);
    check_limit(out, "AHB", r.hclk_hz, limits.max_ahb_hz);
    check_limit(out, "APB1", r.pclk1_hz, limits.max_apb1_hz);
    check_limit(out, "APB2", r.pclk2_hz, limits.max_apb2_hz);
    assert(cc_models(out@) =~= before + limit_checks(*tree, *r));
}

fn check_bauds(
    out: &mut Vec<Conflict>,
    peripherals: &Vec<(String, crate::compiler::config::Peripheral)>,
    tree: &ClockTree,
    r: &ResolvedClocks,
)
    requires
        all_clock_constraints(old(out)@),
    ensures
        all_clock_constraints(final(out)@),
        cc_models(final(out)@) == cc_models(old(out)@) + baud_checks(peripherals@, *tree, *r),
{
    let ghost base = cc_models(out@);
    let mut i: usize = 0;
    while i < peripherals.len()
        invariant
            0 <= i <= peripherals@.len(),
            all_clock_constraints(out@),
            cc_models(out@) == base + baud_checks(peripherals@.take(i as int), *tree, *r),
        decreases peripherals@.len() - i,
    {
        assert(peripherals@.take(i + 1).drop_last() =~= peripherals@.take(i as int));
        check_baud(out, &peripherals[i], tree, r);
        i += 1;
        assert(cc_models(out@) =~= base + baud_checks(peripherals@.take(i as int), *tree, *r));
    }
    assert(peripherals@.take(peripherals@.len() as int) =~= peripherals@);
}

fn check_pwms(
    out: &mut Vec<Conflict>,
    peripherals: &Vec<(String, crate::compiler::config::Peripheral)>,
    clock_hz: Option<u64>,
)
    requires
        all_clock_constraints(old(out)@),
    ensures
        all_clock_constraints(final(out)@),
        cc_models(final(out)@) == cc_models(old(out)@) + pwm_checks(peripherals@, clock_hz),
{
    let ghost base = cc_models(out@);
    let mut j: usize = 0;
    while j < peripherals.len()
        invariant
            0 <= j <= peripherals@.len(),
            all_clock_constraints(out@),
            cc_models(out@) == base + pwm_checks(peripherals@.take(j as int), clock_hz),
        decreases peripherals@.len() - j,
    {
        assert(peripherals@.take(j + 1).drop_last() =~= peripherals@.take(j as int));
        check_pwm(out, &peripherals[j], clock_hz);
        j += 1;
        assert(cc_models(out@) =~= base + pwm_checks(peripherals@.take(j as int), clock_hz));
    }
    assert(peripherals@.take(peripherals@.len() as int) =~= peripherals@);
}

/// Validate a config's clock tree against the family model, returning one
/// clock-constraint conflict per offending node, in a fixed order.
pub fn validate(config: &Config, tree: &ClockTree) -> (out: Vec<Conflict>)
    requires
        tree_ok(*tree),
    ensures
        all_clock_constraints(out@),
        cc_models(out@) == validate_spec(*config, *tree),
{
    let mut out: Vec<Conflict> = Vec::new();
    assert(cc_models(out@) =~= Seq::<(Seq<char>, Seq<char>)>::empty());
    let eff = match effective(&config.clocks, tree) {
        Ok(eff) => eff,
        Err(err) => {
            push_fold_error(&mut out, err);
            assert(cc_models(out@) =~= validate_spec(*config, *tree));
            return out;
        },
    };
    check_structure(&mut out, &eff, tree);
    if out.len() > 0 {
        return out;
    }
    proof {
        lemma_structural_ok_fits(eff, *tree);
    }
    let r = match resolve_effective(&eff, tree) {
        Ok(r) => r,
        Err(err) => {
            push_fold_error(&mut out, err);
            assert(cc_models(out@) =~= validate_spec(*config, *tree));
            return out;
        },
    };
    check_vco(&mut out, &eff, tree, &r);
    check_limits(&mut out, tree, &r);
    check_bauds(&mut out, &config.peripherals, tree, &r);
    check_pwms(&mut out, &config.peripherals, config.device.clock_hz);
    assert(cc_models(out@) =~= validate_spec(*config, *tree));
    out
}


// ---------------------------------------------------------------------------
// What resolution computes
// ---------------------------------------------------------------------------

/// What the resolver gives for the resolved frequencies: `None` where the
/// configuration has no frequencies or one would not fit in 32 bits.
pub open spec fn resolve_result(c: Clocks, t: ClockTree) -> Option<ResolvedClocks> {
    if resolvable(c, t) {
        resolve_spec(c, t)
    } else {
        None
    }
}

/// The clock tree the resolver computes, node by node, from the effective
/// configuration `e`:
/// - SYSCLK is the nominal frequency of the selected oscillator for HSI and
///   HSE (the VCO then reads 0), and for the PLL the VCO input is the PLL
///   source oscillator divided by `M`, the VCO output that times `N`, and
///   SYSCLK the VCO output divided by `P`;
/// - HCLK is SYSCLK over the AHB prescaler, PCLK1/PCLK2 are HCLK over the
///   APB1/APB2 prescalers;
/// - each APB timer clock is its PCLK when that APB prescaler is 1, and
///   twice it otherwise.
pub proof fn lemma_resolved_frequencies(c: Clocks, t: ClockTree)
    ensures
        resolve_result(c, t) matches Some(r) ==> {
            let e = effective_spec(c, t)->Ok_0;
            &&& effective_spec(c, t) is Ok
            &&& e.source == SysclkSource::Hsi ==> r.sysclk_hz == osc_hz_spec(t, Oscillator::Hsi) && r.pll_vco_in_hz == 0
                && r.pll_vco_out_hz == 0
            &&& e.source == SysclkSource::Hse ==> r.sysclk_hz == osc_hz_spec(t, Oscillator::Hse) && r.pll_vco_in_hz == 0
                && r.pll_vco_out_hz == 0
            &&& e.source == SysclkSource::Pll ==> {
                &&& e.pll_m > 0 && e.pll_p > 0
                &&& r.pll_vco_in_hz == osc_hz_spec(t, e.pll_source) / e.pll_m
                &&& r.pll_vco_out_hz == r.pll_vco_in_hz * e.pll_n
                &&& r.sysclk_hz == r.pll_vco_out_hz / e.pll_p
            }
            &&& e.ahb_presc > 0 && e.apb1_presc > 0 && e.apb2_presc > 0
            &&& r.hclk_hz == r.sysclk_hz / e.ahb_presc
            &&& r.pclk1_hz == r.hclk_hz / e.apb1_presc
            &&& r.pclk2_hz == r.hclk_hz / e.apb2_presc
            &&& r.apb1_timer_hz == if e.apb1_presc == 1 { r.pclk1_hz as int } else { 2 * r.pclk1_hz }
            &&& r.apb2_timer_hz == if e.apb2_presc == 1 { r.pclk2_hz as int } else { 2 * r.pclk2_hz }
        },
{
    if resolve_result(c, t) is Some {
        let e = effective_spec(c, t)->Ok_0;
        let (sys, vin, vout) = core_freqs(e, t);
        assert(fits_u32(e, t));
        assert(zero_divider(e) is None);
        let hclk = sys / e.ahb_presc as int;
        let pclk1 = hclk / e.apb1_presc as int;
        let pclk2 = hclk / e.apb2_presc as int;
        if e.source == SysclkSource::Pll {
            assert(0 <= vin);
            assert(vout / e.pll_p as int <= vout) by (nonlinear_arith)
                requires
                    vout >= 0,
                    e.pll_p >= 1,
            ;
            assert(vin <= vout || e.pll_n == 0) by (nonlinear_arith)
                requires
                    vin >= 0,
                    vout == vin * e.pll_n,
            ;
        }
        assert(0 <= sys <= u32::MAX) by (nonlinear_arith)
            requires
                (e.source != SysclkSource::Pll && sys == core_freqs(e, t).0 && 0 <= sys <= u32::MAX)
                    || (e.source == SysclkSource::Pll && sys == vout / e.pll_p as int && 0 <= vout <= u32::MAX
                    && e.pll_p >= 1),
        ;
        assert(0 <= hclk <= sys && 0 <= pclk1 <= hclk && 0 <= pclk2 <= hclk) by (nonlinear_arith)
            requires
                0 <= sys,
                e.ahb_presc >= 1 && e.apb1_presc >= 1 && e.apb2_presc >= 1,
                hclk == sys / e.ahb_presc as int,
                pclk1 == hclk / e.apb1_presc as int,
                pclk2 == hclk / e.apb2_presc as int,
        ;
    }
}

/// The frequency a peripheral receives: `None` exactly when the tree does
/// not place it on a bus; otherwise its bus, and the HCLK on AHB1, the APB
/// timer clock for a timer (a `TIM…` peripheral) on APB1/APB2, and the plain
/// PCLK1/PCLK2 for anything else on APB1/APB2.
pub proof fn lemma_peripheral_freq(p: Seq<char>, t: ClockTree, r: ResolvedClocks)
    ensures
        (peripheral_freq_spec(p, t, r) is None) == (first_bus(t.clocks_model(), p) is None),
        peripheral_freq_spec(p, t, r) matches Some(f) ==> {
            let timer = p.len() >= 3 && p[0] == 'T' && p[1] == 'I' && p[2] == 'M';
            &&& Some(f.bus) == first_bus(t.clocks_model(), p)
            &&& f.bus == Bus::Ahb1 ==> f.hz == r.hclk_hz
            &&& f.bus == Bus::Apb1 && timer ==> f.hz == r.apb1_timer_hz
            &&& f.bus == Bus::Apb1 && !timer ==> f.hz == r.pclk1_hz
            &&& f.bus == Bus::Apb2 && timer ==> f.hz == r.apb2_timer_hz
            &&& f.bus == Bus::Apb2 && !timer ==> f.hz == r.pclk2_hz
        },
{
    reveal_strlit("TIM");
    if p.len() >= 3 {
        let timer = p[0] == 'T' && p[1] == 'I' && p[2] == 'M';
        assert(timer == (p.subrange(0, 3) == "TIM"@)) by {
            if timer {
                assert(p.subrange(0, 3) =~= "TIM"@);
            }
            if p.subrange(0, 3) == "TIM"@ {
                assert(p.subrange(0, 3)[0] == 'T' && p.subrange(0, 3)[1] == 'I' && p.subrange(0, 3)[2] == 'M');
            }
        }
    }
}

} // verus!
