//! The constraint auto-router: the user names a peripheral instance without
//! assigning some or all of its required pins, and [`route`] searches the
//! database's pin/AF model for a complete, valid, deterministic assignment
//! of exactly the roles left open.
//!
//! Candidate pins of each open role are ordered by a strict lexicographic
//! cost: ascending demand (how many database rows reference the pin), then
//! pins on the instance's preferred port (one port with a free candidate for
//! every open role of the instance) first, then pin order. [`route`] runs a
//! backtracking depth-first search over the open roles in config order, with
//! a global step budget past which it falls back to [`route_greedy`] (first
//! free candidate per role, no undo). A complete assignment is merged into
//! the config and re-checked by the solver before it is reported.

use vstd::prelude::*;
use crate::compiler::config::{pin_str_spec, Config, ConfigValue, ExtiPin, Peripheral};
use crate::compiler::model::{
    kind_roles, peripheral_bus, peripheral_bus_spec, peripheral_name, peripheral_name_spec, roles_for, roles_model,
    strip_trailing_digits, Bus, Role,
};
use crate::compiler::solver::{bus_enabled, Conflict, ConflictView};
use crate::db::{carries, parse_pin_spec, pin_key, port_index, AfMapping, Database, Pin, Port};
use crate::text::{owned, str_eq};

verus! {

/// One more than the largest pin key: the size of an occupancy table.
pub const PIN_SLOTS: usize = 2048;

/// Past this many candidate trials across the whole search, [`route`] gives
/// up on the backtracking search and falls back to [`route_greedy`].
pub const BACKTRACK_BUDGET: u64 = 100_000;

/// Every pin's key indexes an occupancy table.
pub proof fn lemma_pin_key_bounds(p: Pin)
    ensures
        0 <= pin_key(p) < PIN_SLOTS,
{
}

/// Distinct pins have distinct keys.
pub proof fn lemma_pin_key_injective(p: Pin, q: Pin)
    ensures
        pin_key(p) == pin_key(q) ==> p == q,
{
    if pin_key(p) == pin_key(q) {
        assert(port_index(p.port) == port_index(q.port));
        assert(p.port == q.port);
    }
}

/// A pin-occupancy table as plain values: the holder of each pin key, if any.
pub open spec fn occ_view(v: Seq<Option<String>>) -> Seq<Option<Seq<char>>> {
    v.map_values(
        |o: Option<String>|
            match o {
                Some(s) => Some(s@),
                None => None,
            },
    )
}

/// Whether `p` is free in `occ`.
pub open spec fn is_free(occ: Seq<Option<Seq<char>>>, p: Pin) -> bool {
    occ[pin_key(p)] is None
}

/// `occ` with `p` held by `holder`.
pub open spec fn occupy(occ: Seq<Option<Seq<char>>>, p: Pin, holder: Seq<char>) -> Seq<Option<Seq<char>>> {
    occ.update(pin_key(p), Some(holder))
}

/// Whether `s` is strictly increasing in `rank`.
pub open spec fn strictly_ranked(s: Seq<Pin>, rank: spec_fn(Pin) -> int) -> bool {
    forall|i: int, j: int| 0 <= i < j < s.len() ==> rank(#[trigger] s[i]) < rank(#[trigger] s[j])
}

/// Two sequences strictly increasing in one rank, with the same members,
/// are equal.
pub proof fn lemma_ranked_unique(a: Seq<Pin>, b: Seq<Pin>, rank: spec_fn(Pin) -> int)
    requires
        strictly_ranked(a, rank),
        strictly_ranked(b, rank),
        forall|p: Pin| a.contains(p) <==> b.contains(p),
    ensures
        a == b,
    decreases a.len(),
{
    if a.len() == 0 {
        if b.len() > 0 {
            assert(b.contains(b[0]));
        }
        assert(a =~= b);
    } else {
        assert(a.contains(a[0]));
        let j = choose|j: int| 0 <= j < b.len() && b[j] == a[0];
        assert(b.contains(b[0]));
        let i = choose|i: int| 0 <= i < a.len() && a[i] == b[0];
        if i > 0 {
            assert(rank(a[0]) < rank(a[i]));
            if j > 0 {
                assert(rank(b[0]) < rank(b[j]));
            }
            assert(false);
        }
        assert(a[0] == b[0]);
        let ta = a.drop_first();
        let tb = b.drop_first();
        assert forall|i: int, j: int| 0 <= i < j < ta.len() implies rank(#[trigger] ta[i]) < rank(#[trigger] ta[j]) by {
            assert(ta[i] == a[i + 1] && ta[j] == a[j + 1]);
        }
        assert forall|i: int, j: int| 0 <= i < j < tb.len() implies rank(#[trigger] tb[i]) < rank(#[trigger] tb[j]) by {
            assert(tb[i] == b[i + 1] && tb[j] == b[j + 1]);
        }
        assert forall|p: Pin| ta.contains(p) <==> tb.contains(p) by {
            if ta.contains(p) {
                let k = choose|k: int| 0 <= k < ta.len() && ta[k] == p;
                assert(a[k + 1] == p);
                assert(rank(a[0]) < rank(a[k + 1]));
                assert(a.contains(p));
                let m = choose|m: int| 0 <= m < b.len() && b[m] == p;
                assert(m != 0);
                assert(tb[m - 1] == p);
            }
            if tb.contains(p) {
                let k = choose|k: int| 0 <= k < tb.len() && tb[k] == p;
                assert(b[k + 1] == p);
                assert(rank(b[0]) < rank(b[k + 1]));
                assert(b.contains(p));
                let m = choose|m: int| 0 <= m < a.len() && a[m] == p;
                assert(m != 0);
                assert(ta[m - 1] == p);
            }
        }
        lemma_ranked_unique(ta, tb, rank);
        assert(a =~= b) by {
            assert forall|k: int| 0 <= k < a.len() implies a[k] == b[k] by {
                if k > 0 {
                    assert(ta[k - 1] == tb[k - 1]);
                }
            }
        }
    }
}

/// Whether some database row maps `peripheral`'s `signal` onto `p`.
pub open spec fn carries_on(db: Seq<AfMapping>, peripheral: Seq<char>, signal: Seq<char>, p: Pin) -> bool {
    exists|i: int| 0 <= i < db.len() && (#[trigger] db[i]).pin == p && carries(db[i], peripheral, signal)
}

/// Pins ranked by key.
pub open spec fn by_key() -> spec_fn(Pin) -> int {
    |p: Pin| pin_key(p)
}

/// Whether `s` lists the pins carrying `peripheral`'s `signal`, in pin order.
pub open spec fn is_candidate_seq(s: Seq<Pin>, db: Seq<AfMapping>, peripheral: Seq<char>, signal: Seq<char>) -> bool {
    strictly_ranked(s, by_key()) && forall|p: Pin| #[trigger] s.contains(p) <==> carries_on(db, peripheral, signal, p)
}

/// The pins that carry `peripheral`'s `signal`, in pin order.
pub open spec fn candidate_seq(db: Seq<AfMapping>, peripheral: Seq<char>, signal: Seq<char>) -> Seq<Pin> {
    choose|s: Seq<Pin>| #[trigger] is_candidate_seq(s, db, peripheral, signal)
}

/// The demand of a pin: how many database rows reference it.
pub open spec fn demand(db: Seq<AfMapping>, p: Pin) -> nat {
    db.filter(|m: AfMapping| m.pin == p).len()
}

/// Whether `p` is off the preferred port (never, without one).
pub open spec fn off_preferred(preferred: Option<Port>, p: Pin) -> bool {
    match preferred {
        Some(q) => p.port != q,
        None => false,
    }
}

/// The cost of a candidate as one integer, ordered lexicographically by
/// demand, then off-preferred-port, then pin.
pub open spec fn cost_rank(db: Seq<AfMapping>, preferred: Option<Port>, p: Pin) -> int {
    demand(db, p) * 4096 + (if off_preferred(preferred, p) {
        2048int
    } else {
        0int
    }) + pin_key(p)
}

/// Pins ranked by cost.
pub open spec fn by_cost(db: Seq<AfMapping>, preferred: Option<Port>) -> spec_fn(Pin) -> int {
    |p: Pin| cost_rank(db, preferred, p)
}

/// Whether `s` lists the free candidates of a role, cheapest first.
pub open spec fn is_sorted_candidates(
    s: Seq<Pin>,
    db: Seq<AfMapping>,
    peripheral: Seq<char>,
    signal: Seq<char>,
    occ: Seq<Option<Seq<char>>>,
    preferred: Option<Port>,
) -> bool {
    strictly_ranked(s, by_cost(db, preferred)) && forall|p: Pin|
        #[trigger] s.contains(p) <==> (carries_on(db, peripheral, signal, p) && is_free(occ, p))
}

/// The free candidates of a role, cheapest first.
pub open spec fn sorted_candidates_spec(
    db: Seq<AfMapping>,
    peripheral: Seq<char>,
    signal: Seq<char>,
    occ: Seq<Option<Seq<char>>>,
    preferred: Option<Port>,
) -> Seq<Pin> {
    choose|s: Seq<Pin>| #[trigger] is_sorted_candidates(s, db, peripheral, signal, occ, preferred)
}

/// The pins of ranked pairs.
pub open spec fn pins_of(v: Seq<(u128, Pin)>) -> Seq<Pin> {
    v.map_values(|x: (u128, Pin)| x.1)
}

/// The pins carrying `peripheral`'s `signal`, in pin order.
fn candidate_pins_of(db: &Database, peripheral: &str, signal: &str) -> (r: Vec<Pin>)
    ensures
        r@ == candidate_seq(db@, peripheral@, signal@),
        is_candidate_seq(r@, db@, peripheral@, signal@),
{
    let r = db.candidate_pins(peripheral, signal);
    proof {
        let key = by_key();
        assert(strictly_ranked(r@, key));
        assert forall|p: Pin| r@.contains(p) <==> carries_on(db@, peripheral@, signal@, p) by {}
        assert(is_candidate_seq(r@, db@, peripheral@, signal@));
        let c = candidate_seq(db@, peripheral@, signal@);
        assert(is_candidate_seq(c, db@, peripheral@, signal@));
        lemma_ranked_unique(r@, c, key);
    }
    r
}

/// The demand of `pin`.
fn pin_demand(db: &Database, pin: Pin) -> (d: usize)
    ensures
        d == demand(db@, pin),
{
    db.alt_functions(pin).len()
}

/// The cost rank of `pin`.
fn rank_of(db: &Database, preferred: Option<Port>, pin: Pin) -> (r: u128)
    ensures
        r == cost_rank(db@, preferred, pin),
{
    let d = pin_demand(db, pin) as u128;
    let off: u128 = match preferred {
        Some(q) => if pin.port != q {
            2048
        } else {
            0
        },
        None => 0,
    };
    d * 4096 + off + pin.key() as u128
}

/// Distinct pins have distinct cost ranks.
proof fn lemma_cost_rank_injective(db: Seq<AfMapping>, preferred: Option<Port>, p: Pin, q: Pin)
    ensures
        cost_rank(db, preferred, p) == cost_rank(db, preferred, q) ==> p == q,
{
    lemma_pin_key_bounds(p);
    lemma_pin_key_bounds(q);
    if cost_rank(db, preferred, p) == cost_rank(db, preferred, q) {
        let xp: int = demand(db, p) * 2 + (if off_preferred(preferred, p) { 1int } else { 0int });
        let xq: int = demand(db, q) * 2 + (if off_preferred(preferred, q) { 1int } else { 0int });
        assert(xp * 2048 + pin_key(p) == xq * 2048 + pin_key(q));
        assert(pin_key(p) == pin_key(q)) by (nonlinear_arith)
            requires
                xp * 2048 + pin_key(p) == xq * 2048 + pin_key(q),
                0 <= pin_key(p) < 2048,
                0 <= pin_key(q) < 2048,
        ;
        lemma_pin_key_injective(p, q);
    }
}

/// The free candidate pins of a role, cheapest first.
fn sorted_candidates(
    db: &Database,
    peripheral: &str,
    signal: &str,
    occupied: &Vec<Option<String>>,
    preferred: Option<Port>,
) -> (r: Vec<Pin>)
    requires
        occupied@.len() == PIN_SLOTS,
    ensures
        r@ == sorted_candidates_spec(db@, peripheral@, signal@, occ_view(occupied@), preferred),
{
    let ghost rank = by_cost(db@, preferred);
    let ghost occ = occ_view(occupied@);
    let all = candidate_pins_of(db, peripheral, signal);
    let mut out: Vec<(u128, Pin)> = Vec::new();
    let mut i: usize = 0;
    while i < all.len()
        invariant
            0 <= i <= all@.len(),
            occupied@.len() == PIN_SLOTS,
            occ == occ_view(occupied@),
            all@ == candidate_seq(db@, peripheral@, signal@),
            is_candidate_seq(all@, db@, peripheral@, signal@),
            rank == by_cost(db@, preferred),
            forall|k: int| 0 <= k < out@.len() ==> (#[trigger] out@[k]).0 == rank(out@[k].1),
            strictly_ranked(pins_of(out@), rank),
            forall|p: Pin|
                #[trigger] pins_of(out@).contains(p) <==> (exists|j: int|
                    0 <= j < i && #[trigger] all@[j] == p) && is_free(occ, p),
        decreases all@.len() - i,
    {
        let p = all[i];
        proof {
            lemma_pin_key_bounds(p);
        }
        let k = p.key() as usize;
        if occupied[k].is_none() {
            let rp = rank_of(db, preferred, p);
            let ghost before = out@;
            let ghost bs = pins_of(before);
            proof {
                // `p` is new: its pin key is above every earlier candidate's.
                assert(!bs.contains(p)) by {
                    if bs.contains(p) {
                        let j = choose|j: int| 0 <= j < i && #[trigger] all@[j] == p;
                        assert(by_key()(all@[j]) < by_key()(all@[i as int]));
                    }
                }
            }
            let mut pos: usize = 0;
            while pos < out.len() && out[pos].0 < rp
                invariant
                    0 <= pos <= out@.len(),
                    out@ == before,
                    forall|m: int| 0 <= m < pos ==> (#[trigger] out@[m]).0 < rp,
                decreases out@.len() - pos,
            {
                pos += 1;
            }
            proof {
                if pos < out@.len() {
                    assert(out@[pos as int].0 >= rp);
                    lemma_cost_rank_injective(db@, preferred, p, out@[pos as int].1);
                    assert(bs[pos as int] == out@[pos as int].1);
                }
            }
            out.insert(pos, (rp, p));
            proof {
                let ns = pins_of(out@);
                assert(ns =~= bs.subrange(0, pos as int).push(p) + bs.subrange(pos as int, bs.len() as int));
                assert forall|a: int, b: int| 0 <= a < b < ns.len() implies rank(#[trigger] ns[a]) < rank(#[trigger] ns[b]) by {
                    assert(ns[a] == out@[a].1 && ns[b] == out@[b].1);
                    if a < pos && b > pos {
                        assert(before[a].0 < rp);
                    }
                    if a == pos && b > pos {
                        assert(out@[b] == before[b - 1]);
                        if b - 1 > pos {
                            assert(rank(bs[pos as int]) < rank(bs[b - 1]));
                        }
                    }
                    if a < pos && b == pos {
                        assert(before[a].0 < rp);
                    }
                    if a > pos {
                        assert(out@[a] == before[a - 1] && out@[b] == before[b - 1]);
                        assert(rank(bs[a - 1]) < rank(bs[b - 1]));
                    }
                    if b < pos {
                        assert(rank(bs[a]) < rank(bs[b]));
                    }
                }
                assert forall|q: Pin| #[trigger] ns.contains(q) <==> (exists|j: int| 0 <= j < i + 1 && #[trigger] all@[j] == q)
                    && is_free(occ, q) by {
                    if q == p {
                        assert(all@[i as int] == q);
                        assert(ns[pos as int] == p);
                    }
                    if ns.contains(q) && q != p {
                        let m = choose|m: int| 0 <= m < ns.len() && ns[m] == q;
                        if m < pos {
                            assert(bs[m] == q);
                        } else {
                            assert(bs[m - 1] == q);
                        }
                        assert(bs.contains(q));
                    }
                    if (exists|j: int| 0 <= j < i + 1 && #[trigger] all@[j] == q) && is_free(occ, q) && q != p {
                        let j = choose|j: int| 0 <= j < i + 1 && #[trigger] all@[j] == q;
                        assert(j < i);
                        assert(bs.contains(q));
                        let m = choose|m: int| 0 <= m < bs.len() && bs[m] == q;
                        if m < pos {
                            assert(ns[m] == q);
                        } else {
                            assert(ns[m + 1] == q);
                        }
                    }
                }
            }
        } else {
            proof {
                let bs = pins_of(out@);
                assert(occ[pin_key(p)] is Some);
                assert forall|q: Pin| #[trigger] bs.contains(q) <==> (exists|j: int| 0 <= j < i + 1 && #[trigger] all@[j] == q)
                    && is_free(occ, q) by {
                    if (exists|j: int| 0 <= j < i + 1 && #[trigger] all@[j] == q) && is_free(occ, q) {
                        let j = choose|j: int| 0 <= j < i + 1 && #[trigger] all@[j] == q;
                        assert(j != i);
                    }
                }
            }
        }
        i += 1;
    }
    let mut r: Vec<Pin> = Vec::new();
    let mut j: usize = 0;
    while j < out.len()
        invariant
            0 <= j <= out@.len(),
            r@ == pins_of(out@).take(j as int),
        decreases out@.len() - j,
    {
        r.push(out[j].1);
        assert(pins_of(out@).take(j + 1) =~= r@);
        j += 1;
    }
    proof {
        let ns = pins_of(out@);
        assert(ns.take(ns.len() as int) =~= ns);
        assert forall|q: Pin| #[trigger] r@.contains(q) <==> (carries_on(db@, peripheral@, signal@, q) && is_free(occ, q)) by {
            if carries_on(db@, peripheral@, signal@, q) {
                assert(all@.contains(q));
            }
            if r@.contains(q) {
                let j = choose|j: int| 0 <= j < all@.len() && #[trigger] all@[j] == q;
                assert(all@.contains(q));
            }
        }
        assert(is_sorted_candidates(r@, db@, peripheral@, signal@, occ, preferred));
        let c = sorted_candidates_spec(db@, peripheral@, signal@, occ, preferred);
        assert(is_sorted_candidates(c, db@, peripheral@, signal@, occ, preferred));
        lemma_ranked_unique(r@, c, rank);
    }
    r
}


/// The first free pin of `cands` on `port`.
pub open spec fn first_free_on(cands: Seq<Pin>, occ: Seq<Option<Seq<char>>>, port: Port) -> Option<Pin>
    decreases cands.len(),
{
    if cands.len() == 0 {
        None
    } else if cands[0].port == port && is_free(occ, cands[0]) {
        Some(cands[0])
    } else {
        first_free_on(cands.drop_first(), occ, port)
    }
}

/// When every signal has a free candidate on `port`: the total demand of
/// the first such candidate of each.
pub open spec fn port_cover(
    db: Seq<AfMapping>,
    peripheral: Seq<char>,
    signals: Seq<Seq<char>>,
    occ: Seq<Option<Seq<char>>>,
    port: Port,
) -> Option<nat>
    decreases signals.len(),
{
    if signals.len() == 0 {
        Some(0)
    } else {
        match port_cover(db, peripheral, signals.drop_last(), occ, port) {
            Some(t) => match first_free_on(candidate_seq(db, peripheral, signals.last()), occ, port) {
                Some(p) => Some(t + demand(db, p)),
                None => None,
            },
            None => None,
        }
    }
}

/// The ports in letter order.
pub open spec fn all_ports() -> Seq<Port> {
    seq![Port::A, Port::B, Port::C, Port::D, Port::E, Port::F, Port::G, Port::H]
}

/// Among `ports`, the covering port of least total demand (the earliest on
/// a tie), with that demand.
pub open spec fn best_port(
    db: Seq<AfMapping>,
    peripheral: Seq<char>,
    signals: Seq<Seq<char>>,
    occ: Seq<Option<Seq<char>>>,
    ports: Seq<Port>,
) -> Option<(Port, nat)>
    decreases ports.len(),
{
    if ports.len() == 0 {
        None
    } else {
        let best = best_port(db, peripheral, signals, occ, ports.drop_last());
        match port_cover(db, peripheral, signals, occ, ports.last()) {
            Some(t) => match best {
                Some((pp, pd)) => if pd <= t {
                    Some((pp, pd))
                } else {
                    Some((ports.last(), t))
                },
                None => Some((ports.last(), t)),
            },
            None => best,
        }
    }
}

/// The port an instance's open roles should prefer: with at least two open
/// roles, the port that has a free candidate for every one of them at the
/// least total demand (earliest port on a tie); none otherwise.
pub open spec fn preferred_port_spec(
    db: Seq<AfMapping>,
    peripheral: Seq<char>,
    signals: Seq<Seq<char>>,
    occ: Seq<Option<Seq<char>>>,
) -> Option<Port> {
    if signals.len() < 2 {
        None
    } else {
        match best_port(db, peripheral, signals, occ, all_ports()) {
            Some((p, _)) => Some(p),
            None => None,
        }
    }
}

fn first_free_on_port(cands: &Vec<Pin>, occupied: &Vec<Option<String>>, port: Port) -> (r: Option<Pin>)
    requires
        occupied@.len() == PIN_SLOTS,
    ensures
        r == first_free_on(cands@, occ_view(occupied@), port),
{
    let mut i: usize = 0;
    assert(cands@.skip(0) =~= cands@);
    while i < cands.len()
        invariant
            0 <= i <= cands@.len(),
            occupied@.len() == PIN_SLOTS,
            first_free_on(cands@, occ_view(occupied@), port) == first_free_on(cands@.skip(i as int), occ_view(occupied@), port),
        decreases cands@.len() - i,
    {
        let p = cands[i];
        proof {
            lemma_pin_key_bounds(p);
        }
        assert(cands@.skip(i as int)[0] == p);
        if p.port == port && occupied[p.key() as usize].is_none() {
            return Some(p);
        }
        assert(cands@.skip(i as int).drop_first() =~= cands@.skip(i + 1));
        i += 1;
    }
    None
}

/// A role without a free candidate on `port` keeps the port from covering
/// any longer list of roles.
proof fn lemma_cover_none_extends(
    db: Seq<AfMapping>,
    peripheral: Seq<char>,
    sv: Seq<Seq<char>>,
    occ: Seq<Option<Seq<char>>>,
    port: Port,
    k: int,
)
    requires
        0 <= k <= sv.len(),
        port_cover(db, peripheral, sv.take(k), occ, port) is None,
    ensures
        port_cover(db, peripheral, sv, occ, port) is None,
    decreases sv.len() - k,
{
    if k == sv.len() {
        assert(sv.take(k) =~= sv);
    } else {
        assert(sv.take(k + 1).drop_last() =~= sv.take(k));
        lemma_cover_none_extends(db, peripheral, sv, occ, port, k + 1);
    }
}

fn port_cover_of(db: &Database, peripheral: &str, signals: &Vec<&'static str>, occupied: &Vec<Option<String>>, port: Port) -> (r: Option<u128>)
    requires
        occupied@.len() == PIN_SLOTS,
        signals@.len() <= 5,
    ensures
        match port_cover(db@, peripheral@, signals@.map_values(|x: &'static str| x@), occ_view(occupied@), port) {
            Some(t) => r matches Some(rt) && rt as nat == t,
            None => r is None,
        },
{
    let ghost sv = signals@.map_values(|x: &'static str| x@);
    let mut total: u128 = 0;
    let mut i: usize = 0;
    assert(sv.take(0) =~= Seq::<Seq<char>>::empty());
    while i < signals.len()
        invariant
            0 <= i <= signals@.len() <= 5,
            occupied@.len() == PIN_SLOTS,
            sv == signals@.map_values(|x: &'static str| x@),
            port_cover(db@, peripheral@, sv.take(i as int), occ_view(occupied@), port) == Some(total as nat),
            total <= i * 0xFFFF_FFFF_FFFF_FFFF,
        decreases signals@.len() - i,
    {
        let cands = candidate_pins_of(db, peripheral, signals[i]);
        assert(sv.take(i + 1).drop_last() =~= sv.take(i as int));
        assert(sv.take(i + 1).last() == signals@[i as int]@);
        match first_free_on_port(&cands, occupied, port) {
            Some(p) => {
                let d = pin_demand(db, p) as u128;
                total = total + d;
            },
            None => {
                proof {
                    lemma_cover_none_extends(db@, peripheral@, sv, occ_view(occupied@), port, i + 1);
                }
                return None;
            },
        }
        i += 1;
    }
    assert(sv.take(signals@.len() as int) =~= sv);
    Some(total)
}

/// The port an instance's open roles (given by their signals) should prefer.
fn preferred_port(db: &Database, peripheral: &str, signals: &Vec<&'static str>, occupied: &Vec<Option<String>>) -> (r: Option<Port>)
    requires
        occupied@.len() == PIN_SLOTS,
        signals@.len() <= 5,
    ensures
        r == preferred_port_spec(db@, peripheral@, signals@.map_values(|x: &'static str| x@), occ_view(occupied@)),
{
    if signals.len() < 2 {
        return None;
    }
    let ghost sv = signals@.map_values(|x: &'static str| x@);
    let ports = vec![Port::A, Port::B, Port::C, Port::D, Port::E, Port::F, Port::G, Port::H];
    assert(ports@ =~= all_ports());
    let mut best: Option<(Port, u128)> = None;
    let mut k: usize = 0;
    assert(ports@.take(0) =~= Seq::<Port>::empty());
    while k < ports.len()
        invariant
            0 <= k <= ports@.len(),
            ports@ == all_ports(),
            occupied@.len() == PIN_SLOTS,
            signals@.len() <= 5,
            sv == signals@.map_values(|x: &'static str| x@),
            match best_port(db@, peripheral@, sv, occ_view(occupied@), ports@.take(k as int)) {
                Some((p, d)) => best matches Some((bp, bd)) && bp == p && bd as nat == d,
                None => best is None,
            },
        decreases ports@.len() - k,
    {
        let port = ports[k];
        assert(ports@.take(k + 1).drop_last() =~= ports@.take(k as int));
        assert(ports@.take(k + 1).last() == port);
        match port_cover_of(db, peripheral, signals, occupied, port) {
            Some(t) => {
                best = match best {
                    Some((pp, pd)) => if pd <= t {
                        Some((pp, pd))
                    } else {
                        Some((port, t))
                    },
                    None => Some((port, t)),
                };
            },
            None => {},
        }
        k += 1;
    }
    assert(ports@.take(ports@.len() as int) =~= ports@);
    match best {
        Some((p, _)) => Some(p),
        None => None,
    }
}


/// One open role: a required role of a configured instance left without a
/// pin, with its free candidates, cheapest first.
#[derive(Debug, Clone)]
pub struct OpenRole {
    /// The config key, e.g. `"usart2"`.
    pub instance: String,
    /// The database peripheral name, e.g. `"USART2"`.
    pub peripheral: String,
    /// The role's key, e.g. `"tx"`.
    pub key: &'static str,
    /// The database signal name, e.g. `"TX"`.
    pub signal: &'static str,
    pub candidates: Vec<Pin>,
    /// The position of the instance's table in the config.
    pub table: usize,
}

/// An open role as plain values.
pub struct OpenRoleView {
    pub instance: Seq<char>,
    pub peripheral: Seq<char>,
    pub key: Seq<char>,
    pub signal: Seq<char>,
    pub candidates: Seq<Pin>,
    pub table: int,
}

impl View for OpenRole {
    type V = OpenRoleView;

    open spec fn view(&self) -> OpenRoleView {
        OpenRoleView {
            instance: self.instance@,
            peripheral: self.peripheral@,
            key: self.key@,
            signal: self.signal@,
            candidates: self.candidates@,
            table: self.table as int,
        }
    }
}

pub open spec fn role_views(rs: Seq<OpenRole>) -> Seq<OpenRoleView> {
    rs.map_values(|r: OpenRole| r@)
}

/// The node an open role is reported under, e.g. `USART2_TX`.
pub open spec fn role_node(r: OpenRoleView) -> Seq<char> {
    r.peripheral + "_"@ + r.signal
}

/// No pin taken.
pub open spec fn empty_occ() -> Seq<Option<Seq<char>>> {
    Seq::new(PIN_SLOTS as nat, |i: int| None)
}

/// `occ` with each parseable `[[exti]]` pin held by `"[[exti]]"`.
pub open spec fn exti_occ(occ: Seq<Option<Seq<char>>>, exti: Seq<ExtiPin>) -> Seq<Option<Seq<char>>>
    decreases exti.len(),
{
    if exti.len() == 0 {
        occ
    } else {
        let o = exti_occ(occ, exti.drop_last());
        match parse_pin_spec(exti.last().pin@) {
            Some(p) => occupy(o, p, "[[exti]]"@),
            None => o,
        }
    }
}

/// The already-pinned roles of one instance: each must name a valid pin
/// that carries its signal, and takes it (held by `"<instance>.<key>"`).
/// The first bad one is the error; otherwise the grown occupancy.
pub open spec fn pinned_roles(
    instance: Seq<char>,
    peripheral: Seq<char>,
    table: Seq<(String, crate::compiler::config::ConfigValue)>,
    roles: Seq<(Seq<char>, Seq<char>, bool)>,
    db: Seq<AfMapping>,
    occ: Seq<Option<Seq<char>>>,
) -> Result<Seq<Option<Seq<char>>>, ConflictView>
    decreases roles.len(),
{
    if roles.len() == 0 {
        Ok(occ)
    } else {
        match pinned_roles(instance, peripheral, table, roles.drop_last(), db, occ) {
            Err(e) => Err(e),
            Ok(o) => {
                let r = roles.last();
                match pin_str_spec(table, r.0) {
                    None => Ok(o),
                    Some(v) => match parse_pin_spec(v) {
                        None => Err(ConflictView::InvalidPin { peripheral, key: r.0, value: v }),
                        Some(pin) => if carries_on(db, peripheral, r.1, pin) {
                            Ok(occupy(o, pin, instance + "."@ + r.0))
                        } else {
                            Err(ConflictView::AfMismatch { pin, peripheral, signal: r.1 })
                        },
                    },
                }
            },
        }
    }
}

/// One instance's pre-search checks: an unmodelled kind is skipped; a
/// peripheral the family lacks, or one on a disabled bus, is an error;
/// then its already-pinned roles.
pub open spec fn instance_check(
    entry: (String, Peripheral),
    config: Config,
    db: Seq<AfMapping>,
    occ: Seq<Option<Seq<char>>>,
) -> Result<Seq<Option<Seq<char>>>, ConflictView> {
    match kind_roles(strip_trailing_digits(entry.0@)) {
        None => Ok(occ),
        Some(roles) => {
            let peripheral = peripheral_name_spec(entry.0@);
            if !crate::compiler::solver::db_has(db, peripheral) {
                Err(ConflictView::PeripheralUnavailable { peripheral, family: config.device.family@ })
            } else if peripheral_bus_spec(peripheral) is Some && !bus_enabled(config.clocks, peripheral_bus_spec(peripheral)->0) {
                Err(ConflictView::ClockDomainDisabled { peripheral, bus: peripheral_bus_spec(peripheral)->0 })
            } else {
                pinned_roles(entry.0@, peripheral, entry.1.0@, roles, db, occ)
            }
        },
    }
}

/// The pre-search checks of every instance, in order: the first error, or
/// the occupancy after all already-pinned roles.
pub open spec fn scan(
    entries: Seq<(String, Peripheral)>,
    config: Config,
    db: Seq<AfMapping>,
    occ: Seq<Option<Seq<char>>>,
) -> Result<Seq<Option<Seq<char>>>, ConflictView>
    decreases entries.len(),
{
    if entries.len() == 0 {
        Ok(occ)
    } else {
        match scan(entries.drop_last(), config, db, occ) {
            Err(e) => Err(e),
            Ok(o) => instance_check(entries.last(), config, db, o),
        }
    }
}

/// The required roles a table leaves without a pin string: `(key, signal)`.
pub open spec fn open_keys(
    table: Seq<(String, crate::compiler::config::ConfigValue)>,
    roles: Seq<(Seq<char>, Seq<char>, bool)>,
) -> Seq<(Seq<char>, Seq<char>)>
    decreases roles.len(),
{
    if roles.len() == 0 {
        Seq::empty()
    } else {
        let r = roles.last();
        open_keys(table, roles.drop_last()) + if r.2 && pin_str_spec(table, r.0) is None {
            seq![(r.0, r.1)]
        } else {
            Seq::empty()
        }
    }
}

/// The open roles of one instance, given the final occupancy.
pub open spec fn instance_open_roles(entry: (String, Peripheral), table: int, db: Seq<AfMapping>, occ: Seq<Option<Seq<char>>>) -> Seq<
    OpenRoleView,
> {
    match kind_roles(strip_trailing_digits(entry.0@)) {
        None => Seq::empty(),
        Some(roles) => {
            let peripheral = peripheral_name_spec(entry.0@);
            let open = open_keys(entry.1.0@, roles);
            let preferred = preferred_port_spec(db, peripheral, open.map_values(|x: (Seq<char>, Seq<char>)| x.1), occ);
            open.map_values(
                |x: (Seq<char>, Seq<char>)|
                    OpenRoleView {
                        instance: entry.0@,
                        peripheral,
                        key: x.0,
                        signal: x.1,
                        candidates: sorted_candidates_spec(db, peripheral, x.1, occ, preferred),
                        table,
                    },
            )
        },
    }
}

pub open spec fn open_roles_spec(entries: Seq<(String, Peripheral)>, db: Seq<AfMapping>, occ: Seq<Option<Seq<char>>>) -> Seq<
    OpenRoleView,
>
    decreases entries.len(),
{
    if entries.len() == 0 {
        Seq::empty()
    } else {
        open_roles_spec(entries.drop_last(), db, occ) + instance_open_roles(entries.last(), entries.len() - 1, db, occ)
    }
}

/// What extraction yields: the first pre-existing hard conflict, or the
/// open roles (in config order) with the occupancy of every already-pinned
/// role and `[[exti]]` pin.
pub open spec fn extract_spec(config: Config, db: Seq<AfMapping>) -> Result<(Seq<OpenRoleView>, Seq<Option<Seq<char>>>), ConflictView> {
    match scan(config.peripherals@, config, db, exti_occ(empty_occ(), config.exti@)) {
        Err(e) => Err(e),
        Ok(occ) => Ok((open_roles_spec(config.peripherals@, db, occ), occ)),
    }
}


/// Record `holder` as the holder of `pin`.
fn take_pin(occupied: &mut Vec<Option<String>>, pin: Pin, holder: String)
    requires
        old(occupied)@.len() == PIN_SLOTS,
    ensures
        final(occupied)@.len() == PIN_SLOTS,
        occ_view(final(occupied)@) == occupy(occ_view(old(occupied)@), pin, holder@),
{
    proof {
        lemma_pin_key_bounds(pin);
    }
    let k = pin.key() as usize;
    occupied.set(k, Some(holder));
    assert(occ_view(occupied@) =~= occupy(occ_view(old(occupied)@), pin, holder@));
}

/// An occupancy table holding the parseable `[[exti]]` pins.
fn exti_occupancy(exti: &Vec<ExtiPin>) -> (occupied: Vec<Option<String>>)
    ensures
        occupied@.len() == PIN_SLOTS,
        occ_view(occupied@) == exti_occ(empty_occ(), exti@),
{
    let mut occupied: Vec<Option<String>> = Vec::new();
    let mut z: usize = 0;
    while z < PIN_SLOTS
        invariant
            0 <= z <= PIN_SLOTS,
            occupied@.len() == z,
            forall|k: int| 0 <= k < z ==> (#[trigger] occupied@[k]) is None,
        decreases PIN_SLOTS - z,
    {
        occupied.push(None);
        z += 1;
    }
    assert(occ_view(occupied@) =~= empty_occ());
    let mut i: usize = 0;
    assert(exti@.take(0) =~= Seq::<ExtiPin>::empty());
    while i < exti.len()
        invariant
            0 <= i <= exti@.len(),
            occupied@.len() == PIN_SLOTS,
            occ_view(occupied@) == exti_occ(empty_occ(), exti@.take(i as int)),
        decreases exti@.len() - i,
    {
        assert(exti@.take(i + 1).drop_last() =~= exti@.take(i as int));
        match Pin::parse(exti[i].pin.as_str()) {
            Ok(pin) => take_pin(&mut occupied, pin, owned("[[exti]]")),
            Err(_) => {},
        }
        i += 1;
    }
    assert(exti@.take(exti@.len() as int) =~= exti@);
    occupied
}

/// Whether the database maps `peripheral`'s `signal` onto `pin`.
fn carries_pin(db: &Database, pin: Pin, peripheral: &str, signal: &str) -> (r: bool)
    ensures
        r == carries_on(db@, peripheral@, signal@, pin),
{
    let af = db.find_af(pin, peripheral, signal);
    proof {
        if af is None {
            assert forall|i: int| 0 <= i < db@.len() implies !((#[trigger] db@[i]).pin == pin && carries(db@[i], peripheral@, signal@)) by {}
        }
    }
    af.is_some()
}

/// Check an instance's already-pinned roles, taking their pins.
fn check_pinned(
    instance: &str,
    peripheral: &str,
    table: &Peripheral,
    roles: &'static [Role],
    db: &Database,
    occupied: &mut Vec<Option<String>>,
) -> (r: Result<(), Conflict>)
    requires
        old(occupied)@.len() == PIN_SLOTS,
    ensures
        final(occupied)@.len() == PIN_SLOTS,
        match pinned_roles(instance@, peripheral@, table.0@, roles_model(roles@), db@, occ_view(old(occupied)@)) {
            Ok(o) => r is Ok && occ_view(final(occupied)@) == o,
            Err(e) => r matches Err(c) && c@ == e,
        },
{
    let ghost rm = roles_model(roles@);
    let ghost occ0 = occ_view(occupied@);
    let mut k: usize = 0;
    assert(rm.take(0) =~= Seq::<(Seq<char>, Seq<char>, bool)>::empty());
    while k < roles.len()
        invariant
            0 <= k <= roles@.len(),
            rm == roles_model(roles@),
            occ0 == occ_view(old(occupied)@),
            occupied@.len() == PIN_SLOTS,
            pinned_roles(instance@, peripheral@, table.0@, rm.take(k as int), db@, occ0) == Ok::<Seq<Option<Seq<char>>>, ConflictView>(
                occ_view(occupied@),
            ),
        decreases roles@.len() - k,
    {
        let role = roles[k];
        assert(rm.take(k + 1).drop_last() =~= rm.take(k as int));
        assert(rm.take(k + 1).last() == (role.key@, role.signal@, role.required));
        match table.pin_str(role.key) {
            None => {},
            Some(value) => match Pin::parse(value) {
                Err(_) => {
                    let c = Conflict::InvalidPin { peripheral: owned(peripheral), key: owned(role.key), value: owned(value) };
                    proof {
                        assert(pinned_roles(instance@, peripheral@, table.0@, rm.take(k + 1), db@, occ0) == Err::<
                            Seq<Option<Seq<char>>>,
                            ConflictView,
                        >(c@));
                        lemma_pinned_err_extends(instance@, peripheral@, table.0@, rm, db@, occ0, k + 1);
                    }
                    return Err(c);
                },
                Ok(pin) => {
                    if !carries_pin(db, pin, peripheral, role.signal) {
                        let c = Conflict::AfMismatch { pin, peripheral: owned(peripheral), signal: owned(role.signal) };
                        proof {
                            assert(pinned_roles(instance@, peripheral@, table.0@, rm.take(k + 1), db@, occ0) == Err::<
                                Seq<Option<Seq<char>>>,
                                ConflictView,
                            >(c@));
                            lemma_pinned_err_extends(instance@, peripheral@, table.0@, rm, db@, occ0, k + 1);
                        }
                        return Err(c);
                    }
                    let mut holder = owned(instance);
                    holder.append(".");
                    holder.append(role.key);
                    take_pin(occupied, pin, holder);
                },
            },
        }
        k += 1;
    }
    assert(rm.take(roles@.len() as int) =~= rm);
    Ok(())
}

/// Once a prefix of the roles fails, every longer list fails the same way.
proof fn lemma_pinned_err_extends(
    instance: Seq<char>,
    peripheral: Seq<char>,
    table: Seq<(String, crate::compiler::config::ConfigValue)>,
    rm: Seq<(Seq<char>, Seq<char>, bool)>,
    db: Seq<AfMapping>,
    occ: Seq<Option<Seq<char>>>,
    k: int,
)
    requires
        0 <= k <= rm.len(),
        pinned_roles(instance, peripheral, table, rm.take(k), db, occ) is Err,
    ensures
        pinned_roles(instance, peripheral, table, rm, db, occ) == pinned_roles(instance, peripheral, table, rm.take(k), db, occ),
    decreases rm.len() - k,
{
    if k == rm.len() {
        assert(rm.take(k) =~= rm);
    } else {
        assert(rm.take(k + 1).drop_last() =~= rm.take(k));
        lemma_pinned_err_extends(instance, peripheral, table, rm, db, occ, k + 1);
    }
}

/// Once a prefix of the instances fails, the whole scan fails the same way.
proof fn lemma_scan_err_extends(
    entries: Seq<(String, Peripheral)>,
    config: Config,
    db: Seq<AfMapping>,
    occ: Seq<Option<Seq<char>>>,
    k: int,
)
    requires
        0 <= k <= entries.len(),
        scan(entries.take(k), config, db, occ) is Err,
    ensures
        scan(entries, config, db, occ) == scan(entries.take(k), config, db, occ),
    decreases entries.len() - k,
{
    if k == entries.len() {
        assert(entries.take(k) =~= entries);
    } else {
        assert(entries.take(k + 1).drop_last() =~= entries.take(k));
        lemma_scan_err_extends(entries, config, db, occ, k + 1);
    }
}

/// Whether `bus` is enabled in the config's `[clocks]`.
fn bus_on(config: &Config, bus: Bus) -> (r: bool)
    ensures
        r == bus_enabled(config.clocks, bus),
{
    match bus {
        Bus::Ahb1 => config.clocks.ahb1,
        Bus::Apb1 => config.clocks.apb1,
        Bus::Apb2 => config.clocks.apb2,
    }
}

/// One instance's pre-search checks.
fn check_instance(entry: &(String, Peripheral), config: &Config, db: &Database, occupied: &mut Vec<Option<String>>) -> (r: Result<(), Conflict>)
    requires
        old(occupied)@.len() == PIN_SLOTS,
    ensures
        final(occupied)@.len() == PIN_SLOTS,
        match instance_check(*entry, *config, db@, occ_view(old(occupied)@)) {
            Ok(o) => r is Ok && occ_view(final(occupied)@) == o,
            Err(e) => r matches Err(c) && c@ == e,
        },
{
    let roles = match roles_for(entry.0.as_str()) {
        Some(t) => t,
        None => return Ok(()),
    };
    let peripheral = peripheral_name(entry.0.as_str());
    if !db.has_peripheral(peripheral.as_str()) {
        return Err(Conflict::PeripheralUnavailable { peripheral, family: owned(config.device.family.as_str()) });
    }
    match peripheral_bus(peripheral.as_str()) {
        Some(bus) => {
            if !bus_on(config, bus) {
                return Err(Conflict::ClockDomainDisabled { peripheral, bus });
            }
        },
        None => {},
    }
    check_pinned(entry.0.as_str(), peripheral.as_str(), &entry.1, roles, db, occupied)
}


/// The pre-search checks of every instance, in order.
fn scan_all(config: &Config, db: &Database, occupied: &mut Vec<Option<String>>) -> (r: Result<(), Conflict>)
    requires
        old(occupied)@.len() == PIN_SLOTS,
    ensures
        final(occupied)@.len() == PIN_SLOTS,
        match scan(config.peripherals@, *config, db@, occ_view(old(occupied)@)) {
            Ok(o) => r is Ok && occ_view(final(occupied)@) == o,
            Err(e) => r matches Err(c) && c@ == e,
        },
{
    let ghost occ0 = occ_view(occupied@);
    let ghost es = config.peripherals@;
    let mut i: usize = 0;
    assert(es.take(0) =~= Seq::<(String, Peripheral)>::empty());
    while i < config.peripherals.len()
        invariant
            0 <= i <= es.len(),
            es == config.peripherals@,
            occ0 == occ_view(old(occupied)@),
            occupied@.len() == PIN_SLOTS,
            scan(es.take(i as int), *config, db@, occ0) == Ok::<Seq<Option<Seq<char>>>, ConflictView>(occ_view(occupied@)),
        decreases es.len() - i,
    {
        assert(es.take(i + 1).drop_last() =~= es.take(i as int));
        assert(es.take(i + 1).last() == es[i as int]);
        match check_instance(&config.peripherals[i], config, db, occupied) {
            Ok(()) => {},
            Err(c) => {
                proof {
                    lemma_scan_err_extends(es, *config, db@, occ0, i + 1);
                }
                return Err(c);
            },
        }
        i += 1;
    }
    assert(es.take(es.len() as int) =~= es);
    Ok(())
}

/// The open roles of one instance, given the final occupancy.
fn instance_open(entry: &(String, Peripheral), table: usize, db: &Database, occupied: &Vec<Option<String>>) -> (r: Vec<OpenRole>)
    requires
        occupied@.len() == PIN_SLOTS,
    ensures
        role_views(r@) == instance_open_roles(*entry, table as int, db@, occ_view(occupied@)),
{
    let roles = match roles_for(entry.0.as_str()) {
        Some(t) => t,
        None => {
            let r: Vec<OpenRole> = Vec::new();
            assert(role_views(r@) =~= Seq::<OpenRoleView>::empty());
            return r;
        },
    };
    let ghost rm = roles_model(roles@);
    assert(roles@.len() <= 5) by {
        assert(rm.len() == roles@.len());
    }
    let peripheral = peripheral_name(entry.0.as_str());
    let mut open: Vec<(&'static str, &'static str)> = Vec::new();
    let mut signals: Vec<&'static str> = Vec::new();
    let mut k: usize = 0;
    assert(rm.take(0) =~= Seq::<(Seq<char>, Seq<char>, bool)>::empty());
    while k < roles.len()
        invariant
            0 <= k <= roles@.len() <= 5,
            rm == roles_model(roles@),
            open@.len() <= k,
            signals@.len() == open@.len(),
            open@.map_values(|x: (&'static str, &'static str)| (x.0@, x.1@)) == open_keys(entry.1.0@, rm.take(k as int)),
            forall|j: int| 0 <= j < open@.len() ==> (#[trigger] signals@[j]) == open@[j].1,
        decreases roles@.len() - k,
    {
        let role = roles[k];
        let ghost before = open@.map_values(|x: (&'static str, &'static str)| (x.0@, x.1@));
        assert(rm.take(k + 1).drop_last() =~= rm.take(k as int));
        assert(rm.take(k + 1).last() == (role.key@, role.signal@, role.required));
        if role.required && entry.1.pin_str(role.key).is_none() {
            open.push((role.key, role.signal));
            signals.push(role.signal);
            assert(open@.map_values(|x: (&'static str, &'static str)| (x.0@, x.1@)) =~= before + seq![(role.key@, role.signal@)]);
        } else {
            assert(open@.map_values(|x: (&'static str, &'static str)| (x.0@, x.1@)) =~= before + Seq::<(Seq<char>, Seq<char>)>::empty());
        }
        k += 1;
    }
    assert(rm.take(roles@.len() as int) =~= rm);
    let ghost ok = open_keys(entry.1.0@, rm);
    assert(signals@.map_values(|x: &'static str| x@) =~= ok.map_values(|x: (Seq<char>, Seq<char>)| x.1));
    let preferred = preferred_port(db, peripheral.as_str(), &signals, occupied);
    let ghost spec = instance_open_roles(*entry, table as int, db@, occ_view(occupied@));
    let mut out: Vec<OpenRole> = Vec::new();
    let mut j: usize = 0;
    while j < open.len()
        invariant
            0 <= j <= open@.len(),
            occupied@.len() == PIN_SLOTS,
            ok == open_keys(entry.1.0@, rm),
            open@.map_values(|x: (&'static str, &'static str)| (x.0@, x.1@)) == ok,
            spec == instance_open_roles(*entry, table as int, db@, occ_view(occupied@)),
            rm == roles_model(roles@),
            kind_roles(strip_trailing_digits(entry.0@)) == Some(rm),
            peripheral@ == peripheral_name_spec(entry.0@),
            preferred == preferred_port_spec(db@, peripheral@, ok.map_values(|x: (Seq<char>, Seq<char>)| x.1), occ_view(occupied@)),
            out@.len() == j,
            forall|m: int| 0 <= m < j ==> (#[trigger] role_views(out@)[m]) == spec[m],
        decreases open@.len() - j,
    {
        let (key, signal) = open[j];
        assert(ok[j as int] == (key@, signal@));
        let candidates = sorted_candidates(db, peripheral.as_str(), signal, occupied, preferred);
        let role = OpenRole { instance: owned(entry.0.as_str()), peripheral: owned(peripheral.as_str()), key, signal, candidates, table };
        proof {
            let ghost pref = preferred_port_spec(db@, peripheral@, ok.map_values(|x: (Seq<char>, Seq<char>)| x.1), occ_view(occupied@));
            assert(spec[j as int] == OpenRoleView {
                instance: entry.0@,
                peripheral: peripheral@,
                key: ok[j as int].0,
                signal: ok[j as int].1,
                candidates: sorted_candidates_spec(db@, peripheral@, ok[j as int].1, occ_view(occupied@), pref),
                table: table as int,
            });
            assert(role@ == spec[j as int]);
        }
        let ghost before = out@;
        out.push(role);
        assert(role_views(out@)[j as int] == role@);
        assert forall|m: int| 0 <= m < j implies (#[trigger] role_views(out@)[m]) == role_views(before)[m] by {}
        j += 1;
    }
    assert(role_views(out@) =~= spec);
    out
}

/// The open roles of every instance, in config order.
fn collect_open(config: &Config, db: &Database, occupied: &Vec<Option<String>>) -> (r: Vec<OpenRole>)
    requires
        occupied@.len() == PIN_SLOTS,
    ensures
        role_views(r@) == open_roles_spec(config.peripherals@, db@, occ_view(occupied@)),
{
    let ghost es = config.peripherals@;
    let mut all: Vec<OpenRole> = Vec::new();
    let mut i: usize = 0;
    assert(es.take(0) =~= Seq::<(String, Peripheral)>::empty());
    assert(role_views(all@) =~= Seq::<OpenRoleView>::empty());
    while i < config.peripherals.len()
        invariant
            0 <= i <= es.len(),
            es == config.peripherals@,
            occupied@.len() == PIN_SLOTS,
            role_views(all@) == open_roles_spec(es.take(i as int), db@, occ_view(occupied@)),
        decreases es.len() - i,
    {
        assert(es.take(i + 1).drop_last() =~= es.take(i as int));
        assert(es.take(i + 1).last() == es[i as int]);
        let mut more = instance_open(&config.peripherals[i], i, db, occupied);
        let ghost before = role_views(all@);
        let ghost extra = role_views(more@);
        all.append(&mut more);
        assert(role_views(all@) =~= before + extra);
        i += 1;
    }
    assert(es.take(es.len() as int) =~= es);
    all
}

/// Extract the open required roles of `config` (in config order, each with
/// its free candidates, cheapest first) and the pins already taken by
/// pinned roles and `[[exti]]` entries; a pre-existing hard conflict in an
/// already-pinned role aborts with that conflict.
pub fn extract_open_roles(config: &Config, db: &Database) -> (r: Result<(Vec<OpenRole>, Vec<Option<String>>), Vec<Conflict>>)
    ensures
        match extract_spec(*config, db@) {
            Ok((rs, occ)) => r matches Ok((v, o)) && role_views(v@) == rs && o@.len() == PIN_SLOTS && occ_view(o@) == occ,
            Err(e) => r matches Err(cs) && cs@.len() == 1 && cs@[0]@ == e,
        },
{
    let mut occupied = exti_occupancy(&config.exti);
    match scan_all(config, db, &mut occupied) {
        Err(c) => return Err(vec![c]),
        Ok(()) => {},
    }
    let roles = collect_open(config, db, &occupied);
    Ok((roles, occupied))
}


/// Where a search got stuck, as plain values: the role, and each of its
/// candidates (every pin the database models for its signal) with what
/// holds it.
pub struct StuckView {
    pub node: Seq<char>,
    pub considered: Seq<(Pin, Option<Seq<char>>)>,
}

/// Each pin of `cands` with its holder in `occ`.
pub open spec fn holders(cands: Seq<Pin>, occ: Seq<Option<Seq<char>>>) -> Seq<(Pin, Option<Seq<char>>)> {
    cands.map_values(|p: Pin| (p, occ[pin_key(p)]))
}

/// The report for a role that ran out of candidates under `occ`.
pub open spec fn stuck_spec(r: OpenRoleView, db: Seq<AfMapping>, occ: Seq<Option<Seq<char>>>) -> StuckView {
    StuckView { node: role_node(r), considered: holders(candidate_seq(db, r.peripheral, r.signal), occ) }
}

/// The outcome of the backtracking search as plain values.
pub enum DfsResult {
    /// The pins chosen for the roles searched, in role order.
    Solved(Seq<Pin>),
    BudgetExceeded,
    /// The depth of the deepest dead end, and where it got stuck.
    Exhausted(int, StuckView),
}

/// The backtracking search over `roles[idx..]` from occupancy `occ`, with
/// `steps` trials spent: its outcome and the trials spent by its end.
pub open spec fn dfs_spec(roles: Seq<OpenRoleView>, idx: int, occ: Seq<Option<Seq<char>>>, steps: int, db: Seq<AfMapping>) -> (
    DfsResult,
    int,
)
    decreases roles.len() - idx, 1int, 0int,
    when 0 <= idx <= roles.len()
{
    if idx == roles.len() {
        (DfsResult::Solved(Seq::empty()), steps)
    } else {
        try_spec(roles, idx, 0, occ, steps, None, false, db)
    }
}

/// The search's trial of the candidates `c..` of role `idx`, with the
/// deepest dead end so far and whether any candidate was tried.
pub open spec fn try_spec(
    roles: Seq<OpenRoleView>,
    idx: int,
    c: int,
    occ: Seq<Option<Seq<char>>>,
    steps: int,
    deepest: Option<(int, StuckView)>,
    tried: bool,
    db: Seq<AfMapping>,
) -> (DfsResult, int)
    decreases roles.len() - idx, 0int, roles[idx].candidates.len() - c,
    when 0 <= idx < roles.len() && 0 <= c <= roles[idx].candidates.len()
{
    let role = roles[idx];
    if c == role.candidates.len() {
        if !tried {
            (DfsResult::Exhausted(idx, stuck_spec(role, db, occ)), steps)
        } else {
            match deepest {
                Some((d, st)) => (DfsResult::Exhausted(d, st), steps),
                None => (DfsResult::Exhausted(idx, stuck_spec(role, db, occ)), steps),
            }
        }
    } else {
        let pin = role.candidates[c];
        if !is_free(occ, pin) {
            try_spec(roles, idx, c + 1, occ, steps, deepest, tried, db)
        } else if steps + 1 > BACKTRACK_BUDGET {
            (DfsResult::BudgetExceeded, steps + 1)
        } else {
            let sub = dfs_spec(roles, idx + 1, occupy(occ, pin, role_node(role)), steps + 1, db);
            match sub.0 {
                DfsResult::Solved(ps) => (DfsResult::Solved(seq![pin] + ps), sub.1),
                DfsResult::BudgetExceeded => (DfsResult::BudgetExceeded, sub.1),
                DfsResult::Exhausted(d, st) => {
                    let deeper = match deepest {
                        Some((dd, _)) => if d > dd {
                            Some((d, st))
                        } else {
                            deepest
                        },
                        None => Some((d, st)),
                    };
                    try_spec(roles, idx, c + 1, occ, sub.1, deeper, true, db)
                },
            }
        }
    }
}

/// Where the search got stuck.
#[derive(Debug, Clone)]
pub struct StuckAt {
    pub role_node: String,
    /// `(candidate, holder)` for every pin the database models for the signal.
    pub candidates_considered: Vec<(Pin, Option<String>)>,
}

impl View for StuckAt {
    type V = StuckView;

    open spec fn view(&self) -> StuckView {
        StuckView {
            node: self.role_node@,
            considered: self.candidates_considered@.map_values(
                |x: (Pin, Option<String>)|
                    (
                        x.0,
                        match x.1 {
                            Some(h) => Some(h@),
                            None => None,
                        },
                    ),
            ),
        }
    }
}

/// The deepest dead end so far, as plain values.
pub open spec fn deepest_view(d: Option<(usize, StuckAt)>) -> Option<(int, StuckView)> {
    match d {
        Some((depth, st)) => Some((depth as int, st@)),
        None => None,
    }
}

/// The outcome of the backtracking search.
pub enum DfsOutcome {
    Solved,
    BudgetExceeded,
    Exhausted(usize, StuckAt),
}

/// The node of an open role, e.g. `USART2_TX`.
fn node_of(role: &OpenRole) -> (r: String)
    ensures
        r@ == role_node(role@),
{
    let mut r = owned(role.peripheral.as_str());
    r.append("_");
    r.append(role.signal);
    r
}

/// Describe where `role` got stuck: every pin the database models for its
/// signal, with who holds it in `occupied`.
fn stuck_at(role: &OpenRole, db: &Database, occupied: &Vec<Option<String>>) -> (r: StuckAt)
    requires
        occupied@.len() == PIN_SLOTS,
    ensures
        r@ == stuck_spec(role@, db@, occ_view(occupied@)),
{
    let all = candidate_pins_of(db, role.peripheral.as_str(), role.signal);
    let mut considered: Vec<(Pin, Option<String>)> = Vec::new();
    let mut i: usize = 0;
    while i < all.len()
        invariant
            0 <= i <= all@.len(),
            occupied@.len() == PIN_SLOTS,
            considered@.len() == i,
            forall|k: int|
                0 <= k < i ==> (#[trigger] considered@[k]).0 == all@[k] && match considered@[k].1 {
                    Some(h) => occ_view(occupied@)[pin_key(all@[k])] == Some(h@),
                    None => occ_view(occupied@)[pin_key(all@[k])] is None,
                },
        decreases all@.len() - i,
    {
        let p = all[i];
        proof {
            lemma_pin_key_bounds(p);
        }
        let holder = match &occupied[p.key() as usize] {
            Some(h) => Some(h.clone()),
            None => None,
        };
        considered.push((p, holder));
        i += 1;
    }
    let r = StuckAt { role_node: node_of(role), candidates_considered: considered };
    assert(r@.considered =~= holders(all@, occ_view(occupied@)));
    r
}

/// Backtracking depth-first search over `roles[idx..]`: try each free
/// candidate of `roles[idx]` in order, commit it, recurse, and undo on a
/// dead end. `steps` counts trials across the whole search; past
/// [`BACKTRACK_BUDGET`] the search stops.
fn dfs(
    roles: &Vec<OpenRole>,
    idx: usize,
    occupied: &mut Vec<Option<String>>,
    assignment: &mut Vec<Pin>,
    steps: &mut u64,
    db: &Database,
) -> (out: DfsOutcome)
    requires
        idx <= roles@.len(),
        old(occupied)@.len() == PIN_SLOTS,
        *old(steps) <= BACKTRACK_BUDGET,
    ensures
        final(occupied)@.len() == PIN_SLOTS,
        *final(steps) as int == dfs_spec(role_views(roles@), idx as int, occ_view(old(occupied)@), *old(steps) as int, db@).1,
        *final(steps) <= BACKTRACK_BUDGET || out is BudgetExceeded,
        match (out, dfs_spec(role_views(roles@), idx as int, occ_view(old(occupied)@), *old(steps) as int, db@).0) {
            (DfsOutcome::Solved, DfsResult::Solved(ps)) => final(assignment)@ == old(assignment)@ + ps,
            (DfsOutcome::BudgetExceeded, DfsResult::BudgetExceeded) => true,
            (DfsOutcome::Exhausted(d, st), DfsResult::Exhausted(sd, sst)) => d as int == sd && st@ == sst
                && occ_view(final(occupied)@) == occ_view(old(occupied)@) && final(assignment)@ == old(assignment)@,
            _ => false,
        },
    decreases roles@.len() - idx,
{
    let ghost rv = role_views(roles@);
    let ghost occ0 = occ_view(occupied@);
    let ghost asg0 = assignment@;
    let ghost steps0 = *steps as int;
    if idx == roles.len() {
        assert(assignment@ =~= asg0 + Seq::<Pin>::empty());
        return DfsOutcome::Solved;
    }
    let role = &roles[idx];
    assert(rv[idx as int] == role@);
    let mut deepest: Option<(usize, StuckAt)> = None;
    let mut tried_any = false;
    let mut c: usize = 0;
    while c < role.candidates.len()
        invariant
            0 <= idx < roles@.len(),
            rv == role_views(roles@),
            rv[idx as int] == role@,
            0 <= c <= role.candidates@.len(),
            occupied@.len() == PIN_SLOTS,
            occ_view(occupied@) == occ0,
            assignment@ == asg0,
            occ0 == occ_view(old(occupied)@),
            asg0 == old(assignment)@,
            steps0 == *old(steps) as int,
            *steps <= BACKTRACK_BUDGET,
            try_spec(rv, idx as int, c as int, occ0, *steps as int, deepest_view(deepest), tried_any, db@) == dfs_spec(
                rv,
                idx as int,
                occ0,
                steps0,
                db@,
            ),
        decreases role.candidates@.len() - c,
    {
        let pin = role.candidates[c];
        proof {
            lemma_pin_key_bounds(pin);
        }
        let k = pin.key() as usize;
        if occupied[k].is_some() {
            c += 1;
            continue;
        }
        let ghost before_steps = *steps as int;
        let ghost dv = deepest_view(deepest);
        let ghost tried0 = tried_any;
        assert(is_free(occ0, pin));
        assert(rv[idx as int].candidates[c as int] == pin);
        tried_any = true;
        *steps = *steps + 1;
        if *steps > BACKTRACK_BUDGET {
            assert(try_spec(rv, idx as int, c as int, occ0, before_steps, dv, tried0, db@) == (DfsResult::BudgetExceeded, before_steps + 1));
            return DfsOutcome::BudgetExceeded;
        }
        take_pin(occupied, pin, node_of(role));
        assignment.push(pin);
        let ghost asg1 = assignment@;
        let ghost occ1 = occ_view(occupied@);
        let n = roles.len();
        let sub = dfs(roles, idx + 1, occupied, assignment, steps, db);
        match sub {
            DfsOutcome::Solved => {
                assert(assignment@ =~= asg0 + (seq![pin] + (assignment@.skip(asg1.len() as int))));
                return DfsOutcome::Solved;
            },
            DfsOutcome::BudgetExceeded => {
                return DfsOutcome::BudgetExceeded;
            },
            DfsOutcome::Exhausted(depth, stuck) => {
                let replace = match &deepest {
                    Some((d, _)) => depth > *d,
                    None => true,
                };
                if replace {
                    deepest = Some((depth, stuck));
                }
                assert(occ_view(occupied@) == occ1);
                assert(occ1 == occupy(occ0, pin, role_node(role@)));
                let ghost mid = occupied@;
                occupied.set(k, None);
                assignment.pop();
                assert forall|j: int| 0 <= j < PIN_SLOTS implies #[trigger] occ_view(occupied@)[j] == occ0[j] by {
                    if j != k as int {
                        assert(occupied@[j] == mid[j]);
                        assert(occ_view(mid)[j] == occ1[j]);
                    } else {
                        assert(is_free(occ0, pin));
                    }
                }
                assert(occ_view(occupied@) =~= occ0);
                assert(assignment@ =~= asg0);
            },
        }
        c += 1;
    }
    if !tried_any {
        return DfsOutcome::Exhausted(idx, stuck_at(role, db, occupied));
    }
    match deepest {
        Some((depth, stuck)) => DfsOutcome::Exhausted(depth, stuck),
        None => DfsOutcome::Exhausted(idx, stuck_at(role, db, occupied)),
    }
}


/// The first free pin of `cands`.
pub open spec fn first_free(cands: Seq<Pin>, occ: Seq<Option<Seq<char>>>) -> Option<Pin>
    decreases cands.len(),
{
    if cands.len() == 0 {
        None
    } else if is_free(occ, cands[0]) {
        Some(cands[0])
    } else {
        first_free(cands.drop_first(), occ)
    }
}

/// The one-shot greedy assignment of `roles[k..]`: each role takes its
/// first free candidate, with no undo; the first role left without one is
/// where it gets stuck.
pub open spec fn greedy_spec(roles: Seq<OpenRoleView>, k: int, occ: Seq<Option<Seq<char>>>, db: Seq<AfMapping>) -> Result<
    Seq<Pin>,
    StuckView,
>
    decreases roles.len() - k,
    when 0 <= k <= roles.len()
{
    if k == roles.len() {
        Ok(Seq::empty())
    } else {
        match first_free(roles[k].candidates, occ) {
            Some(p) => match greedy_spec(roles, k + 1, occupy(occ, p, role_node(roles[k])), db) {
                Ok(ps) => Ok(seq![p] + ps),
                Err(st) => Err(st),
            },
            None => Err(stuck_spec(roles[k], db, occ)),
        }
    }
}

/// `pre` followed by the pins of `r`, or `r`'s error.
pub open spec fn prepend(pre: Seq<Pin>, r: Result<Seq<Pin>, StuckView>) -> Result<Seq<Pin>, StuckView> {
    match r {
        Ok(ps) => Ok(pre + ps),
        Err(st) => Err(st),
    }
}

/// One considered candidate: `PA2 (held by usart2.tx)`.
pub open spec fn holder_text(x: (Pin, Option<Seq<char>>)) -> Seq<char> {
    crate::db::pin_name(x.0) + match x.1 {
        Some(h) => " (held by "@ + h + ")"@,
        None => " (apparently free)"@,
    }
}

/// The considered candidates, comma-separated.
pub open spec fn holders_text(xs: Seq<(Pin, Option<Seq<char>>)>) -> Seq<char>
    decreases xs.len(),
{
    if xs.len() == 0 {
        Seq::empty()
    } else if xs.len() == 1 {
        holder_text(xs[0])
    } else {
        holders_text(xs.drop_last()) + ", "@ + holder_text(xs.last())
    }
}

/// Why a role is unroutable.
pub open spec fn stuck_reason(st: StuckView) -> Seq<char> {
    if st.considered.len() == 0 {
        "no candidate pins are modeled for this signal on this family"@
    } else {
        "no free pin among candidates: "@ + holders_text(st.considered)
    }
}

impl StuckAt {
    /// Why the role is unroutable: its candidates and who holds each.
    pub fn reason(&self) -> (r: String)
        ensures
            r@ == stuck_reason(self@),
    {
        let ghost xs = self@.considered;
        if self.candidates_considered.len() == 0 {
            return String::from_str("no candidate pins are modeled for this signal on this family");
        }
        let mut parts = String::new();
        let mut i: usize = 0;
        assert(xs.take(0) =~= Seq::<(Pin, Option<Seq<char>>)>::empty());
        while i < self.candidates_considered.len()
            invariant
                0 <= i <= xs.len(),
                xs == self@.considered,
                parts@ == holders_text(xs.take(i as int)),
            decreases xs.len() - i,
        {
            let (pin, holder) = &self.candidates_considered[i];
            let mut part = pin.to_string();
            match holder {
                Some(h) => {
                    part.append(" (held by ");
                    part.append(h.as_str());
                    part.append(")");
                },
                None => part.append(" (apparently free)"),
            }
            assert(holder_text(xs[i as int]) == part@);
            if i > 0 {
                parts.append(", ");
            }
            parts.append(part.as_str());
            assert(xs.take(i + 1).drop_last() =~= xs.take(i as int));
            if i == 0 {
                assert(parts@ =~= holder_text(xs[0]));
            }
            i += 1;
        }
        assert(xs.take(xs.len() as int) =~= xs);
        let mut r = String::from_str("no free pin among candidates: ");
        r.append(parts.as_str());
        r
    }
}

/// The one-shot greedy assignment of every open role.
fn greedy(roles: &Vec<OpenRole>, occupied: &mut Vec<Option<String>>, db: &Database) -> (r: Result<Vec<Pin>, StuckAt>)
    requires
        old(occupied)@.len() == PIN_SLOTS,
    ensures
        match (r, greedy_spec(role_views(roles@), 0, occ_view(old(occupied)@), db@)) {
            (Ok(ps), Ok(sps)) => ps@ == sps,
            (Err(st), Err(sst)) => st@ == sst,
            _ => false,
        },
{
    let ghost rv = role_views(roles@);
    let ghost whole = greedy_spec(rv, 0, occ_view(occupied@), db@);
    let mut assignment: Vec<Pin> = Vec::new();
    let mut k: usize = 0;
    assert(prepend(assignment@, whole) == whole) by {
        assert(assignment@ =~= Seq::<Pin>::empty());
        match whole {
            Ok(ps) => assert(Seq::<Pin>::empty() + ps =~= ps),
            Err(_) => {},
        }
    }
    while k < roles.len()
        invariant
            0 <= k <= roles@.len(),
            rv == role_views(roles@),
            occupied@.len() == PIN_SLOTS,
            whole == greedy_spec(rv, 0, occ_view(old(occupied)@), db@),
            whole == prepend(assignment@, greedy_spec(rv, k as int, occ_view(occupied@), db@)),
        decreases roles@.len() - k,
    {
        let role = &roles[k];
        assert(rv[k as int] == role@);
        let ghost occ = occ_view(occupied@);
        let mut c: usize = 0;
        let mut found: Option<Pin> = None;
        assert(role.candidates@.skip(0) =~= role.candidates@);
        assert(role.candidates@.skip(role.candidates@.len() as int) =~= Seq::<Pin>::empty());
        while c < role.candidates.len()
            invariant_except_break
                found is None,
            invariant
                0 <= c <= role.candidates@.len(),
                occupied@.len() == PIN_SLOTS,
                occ == occ_view(occupied@),
                first_free(role.candidates@, occ) == first_free(role.candidates@.skip(c as int), occ),
            ensures
                match found {
                    Some(p) => first_free(role.candidates@, occ) == Some(p),
                    None => first_free(role.candidates@, occ) is None,
                },
            decreases role.candidates@.len() - c,
        {
            let p = role.candidates[c];
            proof {
                lemma_pin_key_bounds(p);
            }
            assert(role.candidates@.skip(c as int)[0] == p);
            if occupied[p.key() as usize].is_none() {
                found = Some(p);
                break;
            }
            assert(role.candidates@.skip(c as int).drop_first() =~= role.candidates@.skip(c + 1));
            c += 1;
        }
        match found {
            Some(p) => {
                let ghost before = assignment@;
                take_pin(occupied, p, node_of(role));
                assignment.push(p);
                proof {
                    match greedy_spec(rv, k + 1, occ_view(occupied@), db@) {
                        Ok(ps) => assert(before + (seq![p] + ps) =~= assignment@ + ps),
                        Err(_) => {},
                    }
                }
            },
            None => {
                let st = stuck_at(role, db, occupied);
                return Err(st);
            },
        }
        k += 1;
    }
    assert(assignment@ + Seq::<Pin>::empty() =~= assignment@);
    Ok(assignment)
}

/// The value of the first entry of `entries` with `key` sits at `j`.
proof fn lemma_lookup_at(entries: Seq<(String, crate::compiler::config::ConfigValue)>, key: Seq<char>, j: int)
    requires
        0 <= j < entries.len(),
        entries[j].0@ == key,
        forall|m: int| 0 <= m < j ==> (#[trigger] entries[m]).0@ != key,
    ensures
        crate::compiler::config::lookup_value(entries, key) == Some(entries[j].1),
    decreases j,
{
    if j > 0 {
        assert forall|m: int| 0 <= m < j - 1 implies (#[trigger] entries.drop_first()[m]).0@ != key by {
            assert(entries.drop_first()[m] == entries[m + 1]);
        }
        lemma_lookup_at(entries.drop_first(), key, j - 1);
    }
}

/// No entry of `entries` has `key`.
proof fn lemma_lookup_absent(entries: Seq<(String, crate::compiler::config::ConfigValue)>, key: Seq<char>)
    requires
        forall|m: int| 0 <= m < entries.len() ==> (#[trigger] entries[m]).0@ != key,
    ensures
        crate::compiler::config::lookup_value(entries, key) is None,
    decreases entries.len(),
{
    if entries.len() > 0 {
        assert forall|m: int| 0 <= m < entries.len() - 1 implies (#[trigger] entries.drop_first()[m]).0@ != key by {
            assert(entries.drop_first()[m] == entries[m + 1]);
        }
        lemma_lookup_absent(entries.drop_first(), key);
    }
}

/// Two tables that agree on the keys up to the first `key` entry agree on
/// its lookup.
proof fn lemma_lookup_same(
    a: Seq<(String, crate::compiler::config::ConfigValue)>,
    b: Seq<(String, crate::compiler::config::ConfigValue)>,
    key: Seq<char>,
)
    requires
        a.len() <= b.len(),
        forall|m: int| 0 <= m < a.len() && (#[trigger] a[m]).0@ == key ==> b[m] == a[m],
        forall|m: int| 0 <= m < a.len() ==> (#[trigger] b[m]).0@ == a[m].0@,
        forall|m: int| a.len() <= m < b.len() ==> (#[trigger] b[m]).0@ != key,
    ensures
        crate::compiler::config::lookup_value(b, key) == crate::compiler::config::lookup_value(a, key),
    decreases a.len(),
{
    if a.len() == 0 {
        lemma_lookup_absent(b, key);
    } else {
        if a[0].0@ == key {
        } else {
            assert forall|m: int| 0 <= m < a.len() - 1 && (#[trigger] a.drop_first()[m]).0@ == key implies b.drop_first()[m]
                == a.drop_first()[m] by {
                assert(a.drop_first()[m] == a[m + 1]);
                assert(b.drop_first()[m] == b[m + 1]);
            }
            assert forall|m: int| 0 <= m < a.len() - 1 implies (#[trigger] b.drop_first()[m]).0@ == a.drop_first()[m].0@ by {
                assert(a.drop_first()[m] == a[m + 1]);
                assert(b.drop_first()[m] == b[m + 1]);
            }
            assert forall|m: int| a.len() - 1 <= m < b.len() - 1 implies (#[trigger] b.drop_first()[m]).0@ != key by {
                assert(b.drop_first()[m] == b[m + 1]);
            }
            lemma_lookup_same(a.drop_first(), b.drop_first(), key);
        }
    }
}


/// Set `key` of `table` to the string `value`: the first entry with that
/// key gets the new value; without one, the entry is appended.
fn table_set(table: &mut Peripheral, key: &str, value: String)
    ensures
        pin_str_spec(final(table).0@, key@) == Some(value@),
        forall|k: Seq<char>|
            k != key@ ==> #[trigger] crate::compiler::config::lookup_value(final(table).0@, k)
                == crate::compiler::config::lookup_value(old(table).0@, k),
{
    let ghost old_entries = table.0@;
    let mut j: usize = 0;
    let mut found = false;
    while j < table.0.len()
        invariant_except_break
            !found,
        invariant
            0 <= j <= table.0@.len(),
            table.0@ == old_entries,
            forall|m: int| 0 <= m < j ==> (#[trigger] old_entries[m]).0@ != key@,
        ensures
            found ==> j < old_entries.len() && old_entries[j as int].0@ == key@,
            !found ==> j == old_entries.len(),
        decreases table.0@.len() - j,
    {
        if str_eq(table.0[j].0.as_str(), key) {
            found = true;
            break;
        }
        j += 1;
    }
    if found {
        let (k, _previous) = table.0.remove(j);
        table.0.insert(j, (k, ConfigValue::String(value)));
        proof {
            let new_entries = table.0@;
            assert(new_entries =~= old_entries.update(j as int, new_entries[j as int]));
            lemma_lookup_at(new_entries, key@, j as int);
            assert forall|kk: Seq<char>| kk != key@ implies #[trigger] crate::compiler::config::lookup_value(new_entries, kk)
                == crate::compiler::config::lookup_value(old_entries, kk) by {
                lemma_lookup_same(old_entries, new_entries, kk);
            }
        }
    } else {
        table.0.push((owned(key), ConfigValue::String(value)));
        proof {
            let new_entries = table.0@;
            assert(new_entries.drop_last() =~= old_entries);
            lemma_lookup_at(new_entries, key@, old_entries.len() as int);
            assert forall|kk: Seq<char>| kk != key@ implies #[trigger] crate::compiler::config::lookup_value(new_entries, kk)
                == crate::compiler::config::lookup_value(old_entries, kk) by {
                lemma_lookup_same(old_entries, new_entries, kk);
            }
        }
    }
}

/// The pin the last of `roles` with table `t` and key `k` was given.
pub open spec fn assigned(roles: Seq<OpenRoleView>, pins: Seq<Pin>, t: int, k: Seq<char>) -> Option<Pin>
    decreases roles.len(),
{
    if roles.len() == 0 {
        None
    } else if roles.last().table == t && roles.last().key == k {
        Some(pins[roles.len() - 1])
    } else {
        assigned(roles.drop_last(), pins, t, k)
    }
}

/// `new` is `old` with each role's key set to its pin's name in the role's
/// table: every other section is unchanged, and every other key of every
/// table reads as before.
pub open spec fn merged(old: Config, new: Config, roles: Seq<OpenRoleView>, pins: Seq<Pin>) -> bool {
    &&& new.device == old.device
    &&& new.build == old.build
    &&& new.clocks == old.clocks
    &&& new.trace == old.trace
    &&& new.exti == old.exti
    &&& new.test == old.test
    &&& new.peripherals@.len() == old.peripherals@.len()
    &&& forall|i: int|
        0 <= i < old.peripherals@.len() ==> (#[trigger] new.peripherals@[i]).0 == old.peripherals@[i].0 && forall|k: Seq<char>|
            match #[trigger] assigned(roles, pins, i, k) {
                Some(p) => pin_str_spec(new.peripherals@[i].1.0@, k) == Some(crate::db::pin_name(p)),
                None => crate::compiler::config::lookup_value(new.peripherals@[i].1.0@, k)
                    == crate::compiler::config::lookup_value(old.peripherals@[i].1.0@, k),
            }
}

/// Write each role's pin into its table.
fn apply_assignment(config: &mut Config, roles: &Vec<OpenRole>, pins: &Vec<Pin>)
    requires
        pins@.len() == roles@.len(),
        forall|j: int| 0 <= j < roles@.len() ==> (#[trigger] roles@[j]).table < old(config).peripherals@.len(),
    ensures
        merged(*old(config), *final(config), role_views(roles@), pins@),
{
    let ghost rv = role_views(roles@);
    let mut j: usize = 0;
    assert(rv.take(0).len() == 0);
    while j < roles.len()
        invariant
            0 <= j <= roles@.len(),
            pins@.len() == roles@.len(),
            rv == role_views(roles@),
            forall|m: int| 0 <= m < roles@.len() ==> (#[trigger] roles@[m]).table < old(config).peripherals@.len(),
            merged(*old(config), *config, rv.take(j as int), pins@),
        decreases roles@.len() - j,
    {
        let t = roles[j].table;
        let ghost before = *config;
        let (name, mut table) = config.peripherals.remove(t);
        table_set(&mut table, roles[j].key, pins[j].to_string());
        config.peripherals.insert(t, (name, table));
        proof {
            assert(config.peripherals@ =~= before.peripherals@.update(t as int, config.peripherals@[t as int]));
            let rt = rv.take(j + 1);
            let pt = pins@;
            assert(rt.drop_last() =~= rv.take(j as int));
            assert(rt.last() == roles@[j as int]@);
            assert forall|i: int| 0 <= i < old(config).peripherals@.len() implies (#[trigger] config.peripherals@[i]).0
                == old(config).peripherals@[i].0 && forall|k: Seq<char>|
                match #[trigger] assigned(rt, pt, i, k) {
                    Some(p) => pin_str_spec(config.peripherals@[i].1.0@, k) == Some(crate::db::pin_name(p)),
                    None => crate::compiler::config::lookup_value(config.peripherals@[i].1.0@, k)
                        == crate::compiler::config::lookup_value(old(config).peripherals@[i].1.0@, k),
                } by {
                assert forall|k: Seq<char>| true implies match #[trigger] assigned(rt, pt, i, k) {
                    Some(p) => pin_str_spec(config.peripherals@[i].1.0@, k) == Some(crate::db::pin_name(p)),
                    None => crate::compiler::config::lookup_value(config.peripherals@[i].1.0@, k)
                        == crate::compiler::config::lookup_value(old(config).peripherals@[i].1.0@, k),
                } by {
                    let prev = assigned(rv.take(j as int), pins@, i, k);
                    assert(pt[j as int] == pins@[j as int]);
                    if i == t as int && k == roles@[j as int].key@ {
                        assert(assigned(rt, pt, i, k) == Some(pins@[j as int]));
                    } else {
                        assert(assigned(rt, pt, i, k) == prev);
                        if let Some(p) = prev {
                            assert(assigned(rv.take(j as int), pins@, i, k) == Some(p));
                        }
                    }
                }
            }
        }
        j += 1;
    }
    assert(rv.take(roles@.len() as int) =~= rv);
}


/// The node a conflict is attributed to when it fails a routed assignment.
pub open spec fn conflict_node_spec(c: Conflict) -> Seq<char> {
    match c {
        Conflict::PinCollision { pin, .. } => crate::db::pin_name(pin),
        Conflict::AfMismatch { peripheral, .. } => peripheral@,
        Conflict::InvalidPin { peripheral, .. } => peripheral@,
        Conflict::MissingPin { peripheral, .. } => peripheral@,
        Conflict::ClockDomainDisabled { peripheral, .. } => peripheral@,
        Conflict::PeripheralUnavailable { peripheral, .. } => peripheral@,
        Conflict::ClockConstraint { node, .. } => node@,
        Conflict::DmaCollision { first, .. } => first@,
        Conflict::IrqConflict { node, .. } => node@,
        Conflict::Unroutable { node, .. } => node@,
        Conflict::InvalidTest { node, .. } => node@,
    }
}

/// The node a conflict is attributed to: its pin, peripheral or node.
pub fn conflict_node(c: &Conflict) -> (r: String)
    ensures
        r@ == conflict_node_spec(*c),
{
    match c {
        Conflict::PinCollision { pin, .. } => pin.to_string(),
        Conflict::AfMismatch { peripheral, .. } => owned(peripheral.as_str()),
        Conflict::InvalidPin { peripheral, .. } => owned(peripheral.as_str()),
        Conflict::MissingPin { peripheral, .. } => owned(peripheral.as_str()),
        Conflict::ClockDomainDisabled { peripheral, .. } => owned(peripheral.as_str()),
        Conflict::PeripheralUnavailable { peripheral, .. } => owned(peripheral.as_str()),
        Conflict::ClockConstraint { node, .. } => owned(node.as_str()),
        Conflict::DmaCollision { first, .. } => owned(first.as_str()),
        Conflict::IrqConflict { node, .. } => owned(node.as_str()),
        Conflict::Unroutable { node, .. } => owned(node.as_str()),
        Conflict::InvalidTest { node, .. } => owned(node.as_str()),
    }
}

/// A routing result as plain values.
pub open spec fn route_view(r: Result<Vec<((String, String), Pin)>, Vec<Conflict>>) -> Result<
    Seq<((Seq<char>, Seq<char>), Pin)>,
    Seq<ConflictView>,
> {
    match r {
        Ok(v) => Ok(v@.map_values(|x: ((String, String), Pin)| ((x.0.0@, x.0.1@), x.1))),
        Err(cs) => Err(crate::compiler::solver::views(cs@)),
    }
}

/// Each role's `(instance, key)` with its pin.
pub open spec fn routed(roles: Seq<OpenRoleView>, pins: Seq<Pin>) -> Seq<((Seq<char>, Seq<char>), Pin)> {
    Seq::new(roles.len(), |i: int| ((roles[i].instance, roles[i].key), pins[i]))
}

/// The unroutable report for a stuck search.
pub open spec fn unroutable(st: StuckView) -> Seq<ConflictView> {
    seq![ConflictView::Unroutable { node: st.node, reason: stuck_reason(st) }]
}

/// The verdict on a complete assignment: merged into the config, the
/// solver's checks must all pass; otherwise the first conflict they raise,
/// attributed to its node, makes the assignment unroutable.
pub open spec fn finalize_spec(
    config: Config,
    db: Seq<AfMapping>,
    parsed: Seq<Result<crate::compiler::solver::AssertionSubject, String>>,
    roles: Seq<OpenRoleView>,
    pins: Seq<Pin>,
    r: Result<Seq<((Seq<char>, Seq<char>), Pin)>, Seq<ConflictView>>,
) -> bool {
    exists|sc: Config, cs: Seq<Conflict>, t: crate::db::clock::ClockTree|
        #![trigger merged(config, sc, roles, pins), crate::compiler::solver::views(cs), crate::compiler::solver::solve_spec(sc, db, parsed, t)]
        merged(config, sc, roles, pins) && crate::compiler::family_tree(t, config.device.family@)
            && crate::compiler::clocks::tree_ok(t) && crate::compiler::solver::views(cs) == crate::compiler::solver::solve_spec(
            sc,
            db,
            parsed,
            t,
        ) && if cs.len() == 0 {
            r == Ok::<Seq<((Seq<char>, Seq<char>), Pin)>, Seq<ConflictView>>(routed(roles, pins))
        } else {
            r == Err::<Seq<((Seq<char>, Seq<char>), Pin)>, Seq<ConflictView>>(
                seq![
                    ConflictView::Unroutable {
                        node: conflict_node_spec(cs[0]),
                        reason: "the solved assignment fails validation: "@ + crate::compiler::solver::conflict_message(cs[0]),
                    },
                ],
            )
        }
}

/// Every open role's table index is in range.
proof fn lemma_open_role_tables(entries: Seq<(String, Peripheral)>, db: Seq<AfMapping>, occ: Seq<Option<Seq<char>>>)
    ensures
        forall|j: int|
            0 <= j < open_roles_spec(entries, db, occ).len() ==> 0 <= (#[trigger] open_roles_spec(entries, db, occ)[j]).table
                < entries.len(),
    decreases entries.len(),
{
    if entries.len() > 0 {
        lemma_open_role_tables(entries.drop_last(), db, occ);
        let prev = open_roles_spec(entries.drop_last(), db, occ);
        let last = instance_open_roles(entries.last(), entries.len() - 1, db, occ);
        assert forall|j: int| 0 <= j < last.len() implies (#[trigger] last[j]).table == entries.len() - 1 by {}
        assert forall|j: int|
            0 <= j < open_roles_spec(entries, db, occ).len() implies 0 <= (#[trigger] open_roles_spec(entries, db, occ)[j]).table
                < entries.len() by {
            if j >= prev.len() {
                assert(open_roles_spec(entries, db, occ)[j] == last[j - prev.len()]);
            } else {
                assert(open_roles_spec(entries, db, occ)[j] == prev[j]);
            }
        }
    }
}

/// Merge a complete assignment into the config and re-run the solver; the
/// assignment stands only if that passes.
fn finalize(
    config: Config,
    db: &Database,
    parsed: &Vec<Result<crate::compiler::solver::AssertionSubject, String>>,
    roles: &Vec<OpenRole>,
    pins: Vec<Pin>,
) -> (r: Result<Vec<((String, String), Pin)>, Vec<Conflict>>)
    requires
        parsed@.len() == config.test@.len(),
        pins@.len() == roles@.len(),
        forall|j: int| 0 <= j < roles@.len() ==> (#[trigger] roles@[j]).table < config.peripherals@.len(),
    ensures
        finalize_spec(config, db@, parsed@, role_views(roles@), pins@, route_view(r)),
{
    let ghost original = config;
    let mut synthetic = config;
    apply_assignment(&mut synthetic, roles, &pins);
    let conflicts = crate::compiler::solver::solve(&synthetic, db, parsed);
    if conflicts.len() > 0 {
        let first = &conflicts[0];
        let mut reason = String::from_str("the solved assignment fails validation: ");
        reason.append(first.to_string().as_str());
        let out = vec![Conflict::Unroutable { node: conflict_node(first), reason }];
        proof {
            let t = choose|t: crate::db::clock::ClockTree|
                crate::compiler::family_tree(t, synthetic.device.family@) && crate::compiler::clocks::tree_ok(t)
                    && crate::compiler::solver::views(conflicts@) == #[trigger] crate::compiler::solver::solve_spec(
                    synthetic,
                    db@,
                    parsed@,
                    t,
                );
            assert(route_view(Err(out)) == Err::<Seq<((Seq<char>, Seq<char>), Pin)>, Seq<ConflictView>>(
                seq![
                    ConflictView::Unroutable {
                        node: conflict_node_spec(conflicts@[0]),
                        reason: "the solved assignment fails validation: "@ + crate::compiler::solver::conflict_message(conflicts@[0]),
                    },
                ],
            )) by {
                assert(crate::compiler::solver::views(out@) =~= seq![out@[0]@]);
            }
            assert(merged(original, synthetic, role_views(roles@), pins@));
        }
        return Err(out);
    }
    let mut result: Vec<((String, String), Pin)> = Vec::new();
    let mut j: usize = 0;
    while j < roles.len()
        invariant
            0 <= j <= roles@.len(),
            pins@.len() == roles@.len(),
            result@.len() == j,
            forall|m: int|
                0 <= m < j ==> ((#[trigger] result@[m]).0.0@, result@[m].0.1@, result@[m].1) == (
                    roles@[m].instance@,
                    roles@[m].key@,
                    pins@[m],
                ),
        decreases roles@.len() - j,
    {
        result.push(((owned(roles[j].instance.as_str()), owned(roles[j].key)), pins[j]));
        j += 1;
    }
    proof {
        let t = choose|t: crate::db::clock::ClockTree|
            crate::compiler::family_tree(t, synthetic.device.family@) && crate::compiler::clocks::tree_ok(t)
                && crate::compiler::solver::views(conflicts@) == #[trigger] crate::compiler::solver::solve_spec(
                synthetic,
                db@,
                parsed@,
                t,
            );
        assert(route_view(Ok(result))->Ok_0 =~= routed(role_views(roles@), pins@));
        assert(merged(original, synthetic, role_views(roles@), pins@));
    }
    Ok(result)
}


/// `ps` is a valid assignment of `roles[idx..]` under `occ`: one pin per
/// role, each one of its role's candidates and free in `occ`, no pin twice.
pub open spec fn valid_assignment(roles: Seq<OpenRoleView>, idx: int, occ: Seq<Option<Seq<char>>>, ps: Seq<Pin>) -> bool {
    &&& ps.len() == roles.len() - idx
    &&& forall|j: int| 0 <= j < ps.len() ==> roles[idx + j].candidates.contains(#[trigger] ps[j]) && is_free(occ, ps[j])
    &&& forall|a: int, b: int| 0 <= a < b < ps.len() ==> #[trigger] ps[a] != #[trigger] ps[b]
}

/// A pin other than `p` is free after `p` is taken exactly when it was free before.
proof fn lemma_occupy_other(occ: Seq<Option<Seq<char>>>, p: Pin, h: Seq<char>, q: Pin)
    requires
        occ.len() == PIN_SLOTS,
        q != p,
    ensures
        is_free(occupy(occ, p, h), q) == is_free(occ, q),
{
    lemma_pin_key_bounds(p);
    lemma_pin_key_bounds(q);
    lemma_pin_key_injective(p, q);
}

/// Whatever the backtracking search returns as solved is a valid assignment.
pub proof fn lemma_dfs_sound(roles: Seq<OpenRoleView>, idx: int, occ: Seq<Option<Seq<char>>>, steps: int, db: Seq<AfMapping>)
    requires
        0 <= idx <= roles.len(),
        occ.len() == PIN_SLOTS,
    ensures
        dfs_spec(roles, idx, occ, steps, db).0 matches DfsResult::Solved(ps) ==> valid_assignment(roles, idx, occ, ps),
    decreases roles.len() - idx, 1int, 0int,
{
    if idx < roles.len() {
        lemma_try_sound(roles, idx, 0, occ, steps, None, false, db);
    }
}

proof fn lemma_try_sound(
    roles: Seq<OpenRoleView>,
    idx: int,
    c: int,
    occ: Seq<Option<Seq<char>>>,
    steps: int,
    deepest: Option<(int, StuckView)>,
    tried: bool,
    db: Seq<AfMapping>,
)
    requires
        0 <= idx < roles.len(),
        0 <= c <= roles[idx].candidates.len(),
        occ.len() == PIN_SLOTS,
    ensures
        try_spec(roles, idx, c, occ, steps, deepest, tried, db).0 matches DfsResult::Solved(ps) ==> valid_assignment(
            roles,
            idx,
            occ,
            ps,
        ),
    decreases roles.len() - idx, 0int, roles[idx].candidates.len() - c,
{
    let role = roles[idx];
    if c < role.candidates.len() {
        let pin = role.candidates[c];
        if !is_free(occ, pin) {
            lemma_try_sound(roles, idx, c + 1, occ, steps, deepest, tried, db);
        } else if steps + 1 > BACKTRACK_BUDGET {
        } else {
            let occ2 = occupy(occ, pin, role_node(role));
            let sub = dfs_spec(roles, idx + 1, occ2, steps + 1, db);
            lemma_dfs_sound(roles, idx + 1, occ2, steps + 1, db);
            match sub.0 {
                DfsResult::Solved(rest) => {
                    let ps = seq![pin] + rest;
                    assert forall|j: int| 0 <= j < ps.len() implies roles[idx + j].candidates.contains(#[trigger] ps[j])
                        && is_free(occ, ps[j]) by {
                        if j == 0 {
                            assert(role.candidates[c] == pin);
                        } else {
                            assert(ps[j] == rest[j - 1]);
                            assert(is_free(occ2, rest[j - 1]));
                            assert(rest[j - 1] != pin) by {
                                lemma_pin_key_bounds(pin);
                            }
                            lemma_occupy_other(occ, pin, role_node(role), rest[j - 1]);
                        }
                    }
                    assert forall|a: int, b: int| 0 <= a < b < ps.len() implies #[trigger] ps[a] != #[trigger] ps[b] by {
                        if a == 0 {
                            assert(ps[b] == rest[b - 1]);
                            assert(is_free(occ2, rest[b - 1]));
                            lemma_pin_key_bounds(pin);
                        } else {
                            assert(ps[a] == rest[a - 1] && ps[b] == rest[b - 1]);
                        }
                    }
                },
                DfsResult::BudgetExceeded => {},
                DfsResult::Exhausted(d, st) => {
                    let deeper = match deepest {
                        Some((dd, _)) => if d > dd {
                            Some((d, st))
                        } else {
                            deepest
                        },
                        None => Some((d, st)),
                    };
                    lemma_try_sound(roles, idx, c + 1, occ, sub.1, deeper, true, db);
                },
            }
        }
    }
}

/// The backtracking search never gives up as exhausted while a valid
/// assignment exists: it either finds one or runs out of budget.
pub proof fn lemma_dfs_complete(
    roles: Seq<OpenRoleView>,
    idx: int,
    occ: Seq<Option<Seq<char>>>,
    steps: int,
    db: Seq<AfMapping>,
    a: Seq<Pin>,
)
    requires
        0 <= idx <= roles.len(),
        occ.len() == PIN_SLOTS,
        valid_assignment(roles, idx, occ, a),
    ensures
        !(dfs_spec(roles, idx, occ, steps, db).0 is Exhausted),
    decreases roles.len() - idx, 1int, 0int,
{
    if idx < roles.len() {
        assert(roles[idx + 0].candidates.contains(a[0]));
        let c0 = choose|c0: int| 0 <= c0 < roles[idx].candidates.len() && roles[idx].candidates[c0] == a[0];
        lemma_try_complete(roles, idx, 0, occ, steps, None, false, db, a, c0);
    }
}

proof fn lemma_try_complete(
    roles: Seq<OpenRoleView>,
    idx: int,
    c: int,
    occ: Seq<Option<Seq<char>>>,
    steps: int,
    deepest: Option<(int, StuckView)>,
    tried: bool,
    db: Seq<AfMapping>,
    a: Seq<Pin>,
    c0: int,
)
    requires
        0 <= idx < roles.len(),
        0 <= c <= c0 < roles[idx].candidates.len(),
        roles[idx].candidates[c0] == a[0],
        occ.len() == PIN_SLOTS,
        valid_assignment(roles, idx, occ, a),
    ensures
        !(try_spec(roles, idx, c, occ, steps, deepest, tried, db).0 is Exhausted),
    decreases roles.len() - idx, 0int, roles[idx].candidates.len() - c,
{
    let role = roles[idx];
    let pin = role.candidates[c];
    assert(is_free(occ, a[0]));
    if !is_free(occ, pin) {
        assert(c != c0);
        lemma_try_complete(roles, idx, c + 1, occ, steps, deepest, tried, db, a, c0);
    } else if steps + 1 > BACKTRACK_BUDGET {
    } else {
        let occ2 = occupy(occ, pin, role_node(role));
        let sub = dfs_spec(roles, idx + 1, occ2, steps + 1, db);
        if c == c0 {
            let rest = a.drop_first();
            assert forall|j: int| 0 <= j < rest.len() implies roles[idx + 1 + j].candidates.contains(#[trigger] rest[j])
                && is_free(occ2, rest[j]) by {
                assert(rest[j] == a[j + 1]);
                assert(roles[idx + (j + 1)].candidates.contains(a[j + 1]) && is_free(occ, a[j + 1]));
                assert(a[0] != a[j + 1]);
                lemma_occupy_other(occ, pin, role_node(role), rest[j]);
            }
            assert forall|x: int, y: int| 0 <= x < y < rest.len() implies #[trigger] rest[x] != #[trigger] rest[y] by {
                assert(rest[x] == a[x + 1] && rest[y] == a[y + 1]);
            }
            lemma_dfs_complete(roles, idx + 1, occ2, steps + 1, db, rest);
        } else {
            match sub.0 {
                DfsResult::Exhausted(d, st) => {
                    let deeper = match deepest {
                        Some((dd, _)) => if d > dd {
                            Some((d, st))
                        } else {
                            deepest
                        },
                        None => Some((d, st)),
                    };
                    lemma_try_complete(roles, idx, c + 1, occ, sub.1, deeper, true, db, a, c0);
                },
                _ => {},
            }
        }
    }
}

/// Whatever the greedy fallback assigns is a valid assignment.
pub proof fn lemma_greedy_sound(roles: Seq<OpenRoleView>, k: int, occ: Seq<Option<Seq<char>>>, db: Seq<AfMapping>)
    requires
        0 <= k <= roles.len(),
        occ.len() == PIN_SLOTS,
    ensures
        greedy_spec(roles, k, occ, db) matches Ok(ps) ==> valid_assignment(roles, k, occ, ps),
    decreases roles.len() - k,
{
    if k < roles.len() {
        match first_free(roles[k].candidates, occ) {
            Some(p) => {
                lemma_first_free(roles[k].candidates, occ);
                let occ2 = occupy(occ, p, role_node(roles[k]));
                lemma_greedy_sound(roles, k + 1, occ2, db);
                match greedy_spec(roles, k + 1, occ2, db) {
                    Ok(rest) => {
                        let ps = seq![p] + rest;
                        assert forall|j: int| 0 <= j < ps.len() implies roles[k + j].candidates.contains(#[trigger] ps[j])
                            && is_free(occ, ps[j]) by {
                            if j > 0 {
                                assert(ps[j] == rest[j - 1]);
                                assert(is_free(occ2, rest[j - 1]));
                                lemma_pin_key_bounds(p);
                                lemma_occupy_other(occ, p, role_node(roles[k]), rest[j - 1]);
                            }
                        }
                        assert forall|a: int, b: int| 0 <= a < b < ps.len() implies #[trigger] ps[a] != #[trigger] ps[b] by {
                            if a == 0 {
                                assert(ps[b] == rest[b - 1]);
                                assert(is_free(occ2, rest[b - 1]));
                                lemma_pin_key_bounds(p);
                            } else {
                                assert(ps[a] == rest[a - 1] && ps[b] == rest[b - 1]);
                            }
                        }
                    },
                    Err(_) => {},
                }
            },
            None => {},
        }
    }
}

/// The first free pin of a list is in the list and free.
proof fn lemma_first_free(cands: Seq<Pin>, occ: Seq<Option<Seq<char>>>)
    ensures
        first_free(cands, occ) matches Some(p) ==> cands.contains(p) && is_free(occ, p),
    decreases cands.len(),
{
    if cands.len() > 0 && !is_free(occ, cands[0]) {
        lemma_first_free(cands.drop_first(), occ);
        if let Some(p) = first_free(cands.drop_first(), occ) {
            let j = choose|j: int| 0 <= j < cands.drop_first().len() && cands.drop_first()[j] == p;
            assert(cands[j + 1] == p);
        }
    } else if cands.len() > 0 {
        assert(cands[0] == cands[0]);
    }
}


/// What [`route_greedy`] returns: a pre-existing conflict; nothing when no
/// role is open; else the greedy assignment checked by [`finalize_spec`], or
/// the role it got stuck on.
pub open spec fn greedy_result(
    config: Config,
    db: Seq<AfMapping>,
    parsed: Seq<Result<crate::compiler::solver::AssertionSubject, String>>,
    r: Result<Seq<((Seq<char>, Seq<char>), Pin)>, Seq<ConflictView>>,
) -> bool {
    match extract_spec(config, db) {
        Err(e) => r == Err::<Seq<((Seq<char>, Seq<char>), Pin)>, Seq<ConflictView>>(seq![e]),
        Ok((roles, occ)) => if roles.len() == 0 {
            r == Ok::<Seq<((Seq<char>, Seq<char>), Pin)>, Seq<ConflictView>>(Seq::empty())
        } else {
            match greedy_spec(roles, 0, occ, db) {
                Ok(ps) => finalize_spec(config, db, parsed, roles, ps, r),
                Err(st) => r == Err::<Seq<((Seq<char>, Seq<char>), Pin)>, Seq<ConflictView>>(unroutable(st)),
            }
        },
    }
}

/// What [`route`] returns: a pre-existing conflict; nothing when no role is
/// open; else the backtracking search's assignment checked by
/// [`finalize_spec`], the greedy fallback's result when the search ran out
/// of budget, or the deepest dead end when it was exhausted.
pub open spec fn route_result(
    config: Config,
    db: Seq<AfMapping>,
    parsed: Seq<Result<crate::compiler::solver::AssertionSubject, String>>,
    r: Result<Seq<((Seq<char>, Seq<char>), Pin)>, Seq<ConflictView>>,
) -> bool {
    match extract_spec(config, db) {
        Err(e) => r == Err::<Seq<((Seq<char>, Seq<char>), Pin)>, Seq<ConflictView>>(seq![e]),
        Ok((roles, occ)) => if roles.len() == 0 {
            r == Ok::<Seq<((Seq<char>, Seq<char>), Pin)>, Seq<ConflictView>>(Seq::empty())
        } else {
            match dfs_spec(roles, 0, occ, 0, db).0 {
                DfsResult::Solved(ps) => finalize_spec(config, db, parsed, roles, ps, r),
                DfsResult::BudgetExceeded => greedy_result(config, db, parsed, r),
                DfsResult::Exhausted(_, st) => r == Err::<Seq<((Seq<char>, Seq<char>), Pin)>, Seq<ConflictView>>(
                    unroutable(st),
                ),
            }
        },
    }
}

/// One-shot greedy routing: the same candidate order as [`route`], the first
/// free candidate per role, no backtracking.
pub fn route_greedy(
    config: Config,
    db: &Database,
    parsed: &Vec<Result<crate::compiler::solver::AssertionSubject, String>>,
) -> (r: Result<Vec<((String, String), Pin)>, Vec<Conflict>>)
    requires
        parsed@.len() == config.test@.len(),
    ensures
        greedy_result(config, db@, parsed@, route_view(r)),
{
    let (roles, mut occupied) = match extract_open_roles(&config, db) {
        Err(cs) => {
            assert(crate::compiler::solver::views(cs@) =~= seq![cs@[0]@]);
            return Err(cs);
        },
        Ok(x) => x,
    };
    if roles.len() == 0 {
        let r: Vec<((String, String), Pin)> = Vec::new();
        assert(route_view(Ok(r))->Ok_0 =~= Seq::<((Seq<char>, Seq<char>), Pin)>::empty());
        return Ok(r);
    }
    proof {
        lemma_greedy_sound(role_views(roles@), 0, occ_view(occupied@), db@);
        lemma_open_role_tables(config.peripherals@, db@, occ_view(occupied@));
        assert forall|j: int| 0 <= j < roles@.len() implies (#[trigger] roles@[j]).table < config.peripherals@.len() by {
            assert(role_views(roles@)[j] == roles@[j]@);
        }
    }
    match greedy(&roles, &mut occupied, db) {
        Ok(pins) => finalize(config, db, parsed, &roles, pins),
        Err(stuck) => {
            let reason = stuck.reason();
            let out = vec![Conflict::Unroutable { node: stuck.role_node, reason }];
            assert(crate::compiler::solver::views(out@) =~= unroutable(stuck@));
            Err(out)
        },
    }
}

/// Search for a complete, valid pin assignment for every required role left
/// open in `config`, against `db`, and return the newly solved
/// `((instance, key), pin)` pairs in role order. A pre-existing hard
/// conflict in an already-pinned role, search exhaustion, or a failing final
/// check is the error.
pub fn route(
    config: Config,
    db: &Database,
    parsed: &Vec<Result<crate::compiler::solver::AssertionSubject, String>>,
) -> (r: Result<Vec<((String, String), Pin)>, Vec<Conflict>>)
    requires
        parsed@.len() == config.test@.len(),
    ensures
        route_result(config, db@, parsed@, route_view(r)),
{
    let (roles, mut occupied) = match extract_open_roles(&config, db) {
        Err(cs) => {
            assert(crate::compiler::solver::views(cs@) =~= seq![cs@[0]@]);
            return Err(cs);
        },
        Ok(x) => x,
    };
    if roles.len() == 0 {
        let r: Vec<((String, String), Pin)> = Vec::new();
        assert(route_view(Ok(r))->Ok_0 =~= Seq::<((Seq<char>, Seq<char>), Pin)>::empty());
        return Ok(r);
    }
    let ghost rv = role_views(roles@);
    let ghost occ0 = occ_view(occupied@);
    let mut assignment: Vec<Pin> = Vec::new();
    let mut steps: u64 = 0;
    let outcome = dfs(&roles, 0, &mut occupied, &mut assignment, &mut steps, db);
    match outcome {
        DfsOutcome::Solved => {},
        DfsOutcome::BudgetExceeded => {
            return route_greedy(config, db, parsed);
        },
        DfsOutcome::Exhausted(_, stuck) => {
            let reason = stuck.reason();
            let out = vec![Conflict::Unroutable { node: stuck.role_node, reason }];
            assert(crate::compiler::solver::views(out@) =~= unroutable(stuck@));
            return Err(out);
        },
    }
    proof {
        lemma_dfs_sound(rv, 0, occ0, 0, db@);
        lemma_open_role_tables(config.peripherals@, db@, occ0);
        assert forall|j: int| 0 <= j < roles@.len() implies (#[trigger] roles@[j]).table < config.peripherals@.len() by {
            assert(rv[j] == roles@[j]@);
        }
        if let DfsResult::Solved(ps) = dfs_spec(rv, 0, occ0, 0, db@).0 {
            assert(assignment@ =~= ps);
        }
    }
    finalize(config, db, parsed, &roles, assignment)
}


// ---------------------------------------------------------------------------
// Which roles a route fills
// ---------------------------------------------------------------------------

/// The roles the config asks the router to fill, as `(instance, key)`, in
/// config order: each required role of a known peripheral kind whose table
/// gives it no pin.
pub open spec fn requested_roles(entries: Seq<(String, Peripheral)>) -> Seq<(Seq<char>, Seq<char>)>
    decreases entries.len(),
{
    if entries.len() == 0 {
        Seq::empty()
    } else {
        let e = entries.last();
        requested_roles(entries.drop_last()) + match kind_roles(strip_trailing_digits(e.0@)) {
            None => Seq::empty(),
            Some(roles) => open_keys(e.1.0@, roles).map_values(|x: (Seq<char>, Seq<char>)| (e.0@, x.0)),
        }
    }
}

/// The `(instance, key)` a role is filed under.
pub open spec fn role_key(r: OpenRoleView) -> (Seq<char>, Seq<char>) {
    (r.instance, r.key)
}

proof fn lemma_open_roles_keys(entries: Seq<(String, Peripheral)>, db: Seq<AfMapping>, occ: Seq<Option<Seq<char>>>)
    ensures
        open_roles_spec(entries, db, occ).map_values(|r: OpenRoleView| role_key(r)) == requested_roles(entries),
    decreases entries.len(),
{
    if entries.len() == 0 {
        assert(open_roles_spec(entries, db, occ).map_values(|r: OpenRoleView| role_key(r)) =~= requested_roles(entries));
    } else {
        let e = entries.last();
        lemma_open_roles_keys(entries.drop_last(), db, occ);
        let a = open_roles_spec(entries.drop_last(), db, occ);
        let b = instance_open_roles(e, entries.len() - 1, db, occ);
        let tail = match kind_roles(strip_trailing_digits(e.0@)) {
            None => Seq::<(Seq<char>, Seq<char>)>::empty(),
            Some(roles) => open_keys(e.1.0@, roles).map_values(|x: (Seq<char>, Seq<char>)| (e.0@, x.0)),
        };
        assert(b.map_values(|r: OpenRoleView| role_key(r)) =~= tail);
        assert((a + b).map_values(|r: OpenRoleView| role_key(r)) =~= a.map_values(|r: OpenRoleView| role_key(r)) + b.map_values(
            |r: OpenRoleView| role_key(r),
        ));
    }
}

proof fn lemma_finalized_keys(
    config: Config,
    db: Seq<AfMapping>,
    parsed: Seq<Result<crate::compiler::solver::AssertionSubject, String>>,
    roles: Seq<OpenRoleView>,
    pins: Seq<Pin>,
    m: Seq<((Seq<char>, Seq<char>), Pin)>,
)
    requires
        finalize_spec(config, db, parsed, roles, pins, Ok(m)),
    ensures
        m.map_values(|e: ((Seq<char>, Seq<char>), Pin)| e.0) == roles.map_values(|r: OpenRoleView| role_key(r)),
{
    let (sc, cs, t) = choose|sc: Config, cs: Seq<Conflict>, t: crate::db::clock::ClockTree|
        #![trigger merged(config, sc, roles, pins), crate::compiler::solver::views(cs), crate::compiler::solver::solve_spec(sc, db, parsed, t)]
        merged(config, sc, roles, pins) && crate::compiler::family_tree(t, config.device.family@)
            && crate::compiler::clocks::tree_ok(t) && crate::compiler::solver::views(cs) == crate::compiler::solver::solve_spec(
            sc,
            db,
            parsed,
            t,
        ) && if cs.len() == 0 {
            Ok::<Seq<((Seq<char>, Seq<char>), Pin)>, Seq<ConflictView>>(m) == Ok::<Seq<((Seq<char>, Seq<char>), Pin)>, Seq<ConflictView>>(routed(roles, pins))
        } else {
            Ok::<Seq<((Seq<char>, Seq<char>), Pin)>, Seq<ConflictView>>(m) == Err::<Seq<((Seq<char>, Seq<char>), Pin)>, Seq<ConflictView>>(
                seq![
                    ConflictView::Unroutable {
                        node: conflict_node_spec(cs[0]),
                        reason: "the solved assignment fails validation: "@ + crate::compiler::solver::conflict_message(cs[0]),
                    },
                ],
            )
        };
    assert(cs.len() == 0);
    assert(m == routed(roles, pins));
    assert(m.map_values(|e: ((Seq<char>, Seq<char>), Pin)| e.0) =~= roles.map_values(|r: OpenRoleView| role_key(r)));
}

/// A successful route fills exactly the roles the config asks for: its
/// `(instance, key)` pairs are the required roles of known peripheral kinds
/// that the config leaves without a pin, each once, in config order.
pub proof fn lemma_route_keys(
    config: Config,
    db: Seq<AfMapping>,
    parsed: Seq<Result<crate::compiler::solver::AssertionSubject, String>>,
    m: Seq<((Seq<char>, Seq<char>), Pin)>,
)
    requires
        route_result(config, db, parsed, Ok(m)),
    ensures
        m.map_values(|e: ((Seq<char>, Seq<char>), Pin)| e.0) == requested_roles(config.peripherals@),
{
    match extract_spec(config, db) {
        Err(_) => {},
        Ok((roles, occ)) => {
            lemma_open_roles_keys(config.peripherals@, db, occ);
            if roles.len() == 0 {
                assert(m.map_values(|e: ((Seq<char>, Seq<char>), Pin)| e.0) =~= roles.map_values(|r: OpenRoleView| role_key(r)));
            } else {
                match dfs_spec(roles, 0, occ, 0, db).0 {
                    DfsResult::Solved(ps) => lemma_finalized_keys(config, db, parsed, roles, ps, m),
                    DfsResult::BudgetExceeded => {
                        match greedy_spec(roles, 0, occ, db) {
                            Ok(ps) => lemma_finalized_keys(config, db, parsed, roles, ps, m),
                            Err(_) => {},
                        }
                    },
                    DfsResult::Exhausted(_, _) => {},
                }
            }
        },
    }
}


// ---------------------------------------------------------------------------
// The pins a route assigns
// ---------------------------------------------------------------------------

/// `p` inserted into the cost-ranked `s` at its rank.
pub open spec fn insert_ranked(s: Seq<Pin>, p: Pin, db: Seq<AfMapping>, preferred: Option<Port>) -> Seq<Pin>
    decreases s.len(),
{
    if s.len() == 0 {
        seq![p]
    } else if cost_rank(db, preferred, p) < cost_rank(db, preferred, s.last()) {
        insert_ranked(s.drop_last(), p, db, preferred).push(s.last())
    } else {
        s.push(p)
    }
}

/// The free pins carrying `peripheral`'s `signal` among the first `n` rows
/// of `db`, cheapest first.
pub open spec fn ranked_candidates(
    db: Seq<AfMapping>,
    peripheral: Seq<char>,
    signal: Seq<char>,
    occ: Seq<Option<Seq<char>>>,
    preferred: Option<Port>,
    n: int,
) -> Seq<Pin>
    decreases n,
{
    if n <= 0 {
        Seq::empty()
    } else {
        let s = ranked_candidates(db, peripheral, signal, occ, preferred, n - 1);
        let m = db[n - 1];
        if carries(m, peripheral, signal) && is_free(occ, m.pin) && !s.contains(m.pin) {
            insert_ranked(s, m.pin, db, preferred)
        } else {
            s
        }
    }
}

proof fn lemma_insert_ranked(s: Seq<Pin>, p: Pin, db: Seq<AfMapping>, preferred: Option<Port>)
    requires
        strictly_ranked(s, by_cost(db, preferred)),
        !s.contains(p),
    ensures
        strictly_ranked(insert_ranked(s, p, db, preferred), by_cost(db, preferred)),
        forall|q: Pin| #[trigger] insert_ranked(s, p, db, preferred).contains(q) <==> (q == p || s.contains(q)),
    decreases s.len(),
{
    let rank = by_cost(db, preferred);
    let r = insert_ranked(s, p, db, preferred);
    if s.len() == 0 {
        assert(r =~= seq![p]);
        assert forall|q: Pin| #[trigger] r.contains(q) <==> (q == p || s.contains(q)) by {
            if q == p {
                assert(r[0] == q);
            }
        }
    } else if cost_rank(db, preferred, p) < cost_rank(db, preferred, s.last()) {
        let d = s.drop_last();
        assert forall|i: int, j: int| 0 <= i < j < d.len() implies rank(#[trigger] d[i]) < rank(#[trigger] d[j]) by {
            assert(d[i] == s[i] && d[j] == s[j]);
        }
        assert(!d.contains(p)) by {
            if d.contains(p) {
                let k = choose|k: int| 0 <= k < d.len() && d[k] == p;
                assert(s[k] == p);
            }
        }
        lemma_insert_ranked(d, p, db, preferred);
        let inner = insert_ranked(d, p, db, preferred);
        assert(r == inner.push(s.last()));
        assert forall|q: Pin| #[trigger] r.contains(q) <==> (q == p || s.contains(q)) by {
            if r.contains(q) {
                let i = choose|i: int| 0 <= i < r.len() && r[i] == q;
                if i < inner.len() {
                    assert(inner[i] == q);
                    assert(inner.contains(q));
                    if q != p {
                        assert(d.contains(q));
                        let k = choose|k: int| 0 <= k < d.len() && d[k] == q;
                        assert(s[k] == q);
                    }
                } else {
                    assert(s[s.len() - 1] == q);
                }
            }
            if q == p {
                assert(inner.contains(q));
                let i = choose|i: int| 0 <= i < inner.len() && inner[i] == q;
                assert(r[i] == q);
            } else if s.contains(q) {
                let k = choose|k: int| 0 <= k < s.len() && s[k] == q;
                if k < d.len() {
                    assert(d[k] == q);
                    assert(inner.contains(q));
                    let i = choose|i: int| 0 <= i < inner.len() && inner[i] == q;
                    assert(r[i] == q);
                } else {
                    assert(r[r.len() - 1] == q);
                }
            }
        }
        assert forall|i: int, j: int| 0 <= i < j < r.len() implies rank(#[trigger] r[i]) < rank(#[trigger] r[j]) by {
            if j < inner.len() {
                assert(r[i] == inner[i] && r[j] == inner[j]);
            } else {
                assert(r[j] == s.last());
                assert(r[i] == inner[i]);
                assert(inner.contains(inner[i]));
                if inner[i] != p {
                    let k = choose|k: int| 0 <= k < d.len() && d[k] == inner[i];
                    assert(s[k] == d[k]);
                }
            }
        }
    } else {
        assert(r == s.push(p));
        lemma_cost_rank_injective(db, preferred, p, s.last());
        assert(s.contains(s.last()));
        assert forall|q: Pin| #[trigger] r.contains(q) <==> (q == p || s.contains(q)) by {
            if r.contains(q) {
                let i = choose|i: int| 0 <= i < r.len() && r[i] == q;
                if i < s.len() {
                    assert(s[i] == q);
                }
            }
            if s.contains(q) {
                let k = choose|k: int| 0 <= k < s.len() && s[k] == q;
                assert(r[k] == q);
            }
            if q == p {
                assert(r[s.len() as int] == q);
            }
        }
        assert forall|i: int, j: int| 0 <= i < j < r.len() implies rank(#[trigger] r[i]) < rank(#[trigger] r[j]) by {
            if j < s.len() {
                assert(r[i] == s[i] && r[j] == s[j]);
            } else {
                assert(r[i] == s[i] && r[j] == p);
                if i < s.len() - 1 {
                    assert(rank(s[i]) < rank(s[s.len() - 1]));
                }
            }
        }
    }
}

proof fn lemma_ranked_candidates(
    db: Seq<AfMapping>,
    peripheral: Seq<char>,
    signal: Seq<char>,
    occ: Seq<Option<Seq<char>>>,
    preferred: Option<Port>,
    n: int,
)
    requires
        0 <= n <= db.len(),
    ensures
        strictly_ranked(ranked_candidates(db, peripheral, signal, occ, preferred, n), by_cost(db, preferred)),
        forall|q: Pin| #[trigger] ranked_candidates(db, peripheral, signal, occ, preferred, n).contains(q) <==> (exists|i: int|
            0 <= i < n && (#[trigger] db[i]).pin == q && carries(db[i], peripheral, signal)) && is_free(occ, q),
    decreases n,
{
    if n > 0 {
        lemma_ranked_candidates(db, peripheral, signal, occ, preferred, n - 1);
        let s = ranked_candidates(db, peripheral, signal, occ, preferred, n - 1);
        let m = db[n - 1];
        let r = ranked_candidates(db, peripheral, signal, occ, preferred, n);
        if carries(m, peripheral, signal) && is_free(occ, m.pin) && !s.contains(m.pin) {
            lemma_insert_ranked(s, m.pin, db, preferred);
        }
        assert forall|q: Pin| #[trigger] r.contains(q) <==> (exists|i: int|
            0 <= i < n && (#[trigger] db[i]).pin == q && carries(db[i], peripheral, signal)) && is_free(occ, q) by {
            if exists|i: int| 0 <= i < n && (#[trigger] db[i]).pin == q && carries(db[i], peripheral, signal) {
                let i = choose|i: int| 0 <= i < n && (#[trigger] db[i]).pin == q && carries(db[i], peripheral, signal);
                if i < n - 1 {
                    assert(exists|i: int| 0 <= i < n - 1 && (#[trigger] db[i]).pin == q && carries(db[i], peripheral, signal));
                }
            }
            if exists|i: int| 0 <= i < n - 1 && (#[trigger] db[i]).pin == q && carries(db[i], peripheral, signal) {
                let i = choose|i: int| 0 <= i < n - 1 && (#[trigger] db[i]).pin == q && carries(db[i], peripheral, signal);
                assert(0 <= i < n && db[i].pin == q);
            }
        }
    }
}

/// The free candidates of every role exist: the spec's choice is a
/// cost-ranked list of exactly the free pins carrying the signal.
pub proof fn lemma_sorted_candidates_exist(
    db: Seq<AfMapping>,
    peripheral: Seq<char>,
    signal: Seq<char>,
    occ: Seq<Option<Seq<char>>>,
    preferred: Option<Port>,
)
    ensures
        is_sorted_candidates(sorted_candidates_spec(db, peripheral, signal, occ, preferred), db, peripheral, signal, occ, preferred),
{
    lemma_ranked_candidates(db, peripheral, signal, occ, preferred, db.len() as int);
    let w = ranked_candidates(db, peripheral, signal, occ, preferred, db.len() as int);
    assert forall|q: Pin| #[trigger] w.contains(q) <==> (carries_on(db, peripheral, signal, q) && is_free(occ, q)) by {}
    assert(is_sorted_candidates(w, db, peripheral, signal, occ, preferred));
}

/// Every open role's candidates are free pins that carry its signal.
proof fn lemma_open_role_candidates(entries: Seq<(String, Peripheral)>, db: Seq<AfMapping>, occ: Seq<Option<Seq<char>>>, j: int, q: Pin)
    requires
        0 <= j < open_roles_spec(entries, db, occ).len(),
        open_roles_spec(entries, db, occ)[j].candidates.contains(q),
    ensures
        carries_on(db, open_roles_spec(entries, db, occ)[j].peripheral, open_roles_spec(entries, db, occ)[j].signal, q),
        is_free(occ, q),
    decreases entries.len(),
{
    let a = open_roles_spec(entries.drop_last(), db, occ);
    let b = instance_open_roles(entries.last(), entries.len() - 1, db, occ);
    assert(open_roles_spec(entries, db, occ) == a + b);
    if j < a.len() {
        assert(open_roles_spec(entries, db, occ)[j] == a[j]);
        lemma_open_role_candidates(entries.drop_last(), db, occ, j, q);
    } else {
        let r = b[j - a.len()];
        assert(open_roles_spec(entries, db, occ)[j] == r);
        let e = entries.last();
        let roles = kind_roles(strip_trailing_digits(e.0@))->0;
        let peripheral = peripheral_name_spec(e.0@);
        let open = open_keys(e.1.0@, roles);
        let preferred = preferred_port_spec(db, peripheral, open.map_values(|x: (Seq<char>, Seq<char>)| x.1), occ);
        lemma_sorted_candidates_exist(db, peripheral, r.signal, occ, preferred);
    }
}

/// The pins of routed pairs, in order.
pub open spec fn pins_of_routed(m: Seq<((Seq<char>, Seq<char>), Pin)>) -> Seq<Pin> {
    m.map_values(|e: ((Seq<char>, Seq<char>), Pin)| e.1)
}

proof fn lemma_exti_occ_len(occ: Seq<Option<Seq<char>>>, exti: Seq<ExtiPin>)
    requires
        occ.len() == PIN_SLOTS,
    ensures
        exti_occ(occ, exti).len() == occ.len(),
    decreases exti.len(),
{
    if exti.len() > 0 {
        lemma_exti_occ_len(occ, exti.drop_last());
        match parse_pin_spec(exti.last().pin@) {
            Some(p) => lemma_pin_key_bounds(p),
            None => {},
        }
    }
}

proof fn lemma_pinned_roles_len(
    instance: Seq<char>,
    peripheral: Seq<char>,
    table: Seq<(String, crate::compiler::config::ConfigValue)>,
    roles: Seq<(Seq<char>, Seq<char>, bool)>,
    db: Seq<AfMapping>,
    occ: Seq<Option<Seq<char>>>,
)
    requires
        occ.len() == PIN_SLOTS,
    ensures
        pinned_roles(instance, peripheral, table, roles, db, occ) matches Ok(o) ==> o.len() == occ.len(),
    decreases roles.len(),
{
    if roles.len() > 0 {
        lemma_pinned_roles_len(instance, peripheral, table, roles.drop_last(), db, occ);
        let r = roles.last();
        match pin_str_spec(table, r.0) {
            Some(v) => match parse_pin_spec(v) {
                Some(pin) => lemma_pin_key_bounds(pin),
                None => {},
            },
            None => {},
        }
    }
}

proof fn lemma_scan_occ_len(entries: Seq<(String, Peripheral)>, config: Config, db: Seq<AfMapping>, occ: Seq<Option<Seq<char>>>)
    requires
        occ.len() == PIN_SLOTS,
    ensures
        scan(entries, config, db, occ) matches Ok(o) ==> o.len() == occ.len(),
    decreases entries.len(),
{
    if entries.len() > 0 {
        lemma_scan_occ_len(entries.drop_last(), config, db, occ);
        match scan(entries.drop_last(), config, db, occ) {
            Ok(o) => {
                let e = entries.last();
                match kind_roles(strip_trailing_digits(e.0@)) {
                    Some(roles) => lemma_pinned_roles_len(e.0@, peripheral_name_spec(e.0@), e.1.0@, roles, db, o),
                    None => {},
                }
            },
            Err(_) => {},
        }
    }
}

proof fn lemma_finalized_pins(
    config: Config,
    db: Seq<AfMapping>,
    parsed: Seq<Result<crate::compiler::solver::AssertionSubject, String>>,
    roles: Seq<OpenRoleView>,
    pins: Seq<Pin>,
    m: Seq<((Seq<char>, Seq<char>), Pin)>,
)
    requires
        finalize_spec(config, db, parsed, roles, pins, Ok(m)),
        pins.len() == roles.len(),
    ensures
        m == routed(roles, pins),
        pins_of_routed(m) == pins,
        exists|sc: Config, t: crate::db::clock::ClockTree|
            #![trigger merged(config, sc, roles, pins_of_routed(m)), crate::compiler::solver::solve_spec(sc, db, parsed, t)]
            merged(config, sc, roles, pins_of_routed(m))
            && crate::compiler::family_tree(t, config.device.family@)
            && crate::compiler::solver::solve_spec(sc, db, parsed, t).len() == 0,
{
    let (sc, cs, t) = choose|sc: Config, cs: Seq<Conflict>, t: crate::db::clock::ClockTree|
        #![trigger merged(config, sc, roles, pins), crate::compiler::solver::views(cs), crate::compiler::solver::solve_spec(sc, db, parsed, t)]
        merged(config, sc, roles, pins) && crate::compiler::family_tree(t, config.device.family@)
            && crate::compiler::clocks::tree_ok(t) && crate::compiler::solver::views(cs) == crate::compiler::solver::solve_spec(
            sc,
            db,
            parsed,
            t,
        ) && if cs.len() == 0 {
            Ok::<Seq<((Seq<char>, Seq<char>), Pin)>, Seq<ConflictView>>(m) == Ok::<Seq<((Seq<char>, Seq<char>), Pin)>, Seq<ConflictView>>(routed(roles, pins))
        } else {
            Ok::<Seq<((Seq<char>, Seq<char>), Pin)>, Seq<ConflictView>>(m) == Err::<Seq<((Seq<char>, Seq<char>), Pin)>, Seq<ConflictView>>(
                seq![
                    ConflictView::Unroutable {
                        node: conflict_node_spec(cs[0]),
                        reason: "the solved assignment fails validation: "@ + crate::compiler::solver::conflict_message(cs[0]),
                    },
                ],
            )
        };
    assert(cs.len() == 0);
    assert(m == routed(roles, pins));
    assert(pins_of_routed(m) =~= pins);
    assert(crate::compiler::solver::views(cs).len() == 0);
    assert(merged(config, sc, roles, pins_of_routed(m)));
}

/// The pin a config's table `t` fixes for role `k` of its kind, if its
/// value names a pin.
pub open spec fn fixed_pin(entries: Seq<(String, Peripheral)>, t: int, k: int) -> Option<Pin> {
    if 0 <= t < entries.len() {
        match kind_roles(strip_trailing_digits(entries[t].0@)) {
            Some(roles) => if 0 <= k < roles.len() {
                match pin_str_spec(entries[t].1.0@, roles[k].0) {
                    Some(v) => parse_pin_spec(v),
                    None => None,
                }
            } else {
                None
            },
            None => None,
        }
    } else {
        None
    }
}

/// Whether `table` gives `key` a value naming the pin `q`.
pub open spec fn names_pin(table: Seq<(String, crate::compiler::config::ConfigValue)>, key: Seq<char>, q: Pin) -> bool {
    match pin_str_spec(table, key) {
        Some(v) => parse_pin_spec(v) == Some(q),
        None => false,
    }
}

proof fn lemma_occupy_keeps(occ: Seq<Option<Seq<char>>>, p: Pin, h: Seq<char>, q: Pin)
    requires
        occ.len() == PIN_SLOTS,
        !is_free(occ, q) || q == p,
    ensures
        !is_free(occupy(occ, p, h), q),
{
    lemma_pin_key_bounds(p);
    lemma_pin_key_bounds(q);
    lemma_pin_key_injective(p, q);
}

proof fn lemma_exti_taken(occ: Seq<Option<Seq<char>>>, exti: Seq<ExtiPin>, q: Pin)
    requires
        occ.len() == PIN_SLOTS,
        !is_free(occ, q) || exists|j: int| 0 <= j < exti.len() && parse_pin_spec((#[trigger] exti[j]).pin@) == Some(q),
    ensures
        !is_free(exti_occ(occ, exti), q),
    decreases exti.len(),
{
    if exti.len() > 0 {
        let d = exti.drop_last();
        if !is_free(occ, q) || exists|j: int| 0 <= j < d.len() && parse_pin_spec((#[trigger] d[j]).pin@) == Some(q) {
            lemma_exti_taken(occ, d, q);
            lemma_exti_occ_len(occ, d);
            match parse_pin_spec(exti.last().pin@) {
                Some(p) => lemma_occupy_keeps(exti_occ(occ, d), p, "[[exti]]"@, q),
                None => {},
            }
        } else {
            let j = choose|j: int| 0 <= j < exti.len() && parse_pin_spec((#[trigger] exti[j]).pin@) == Some(q);
            if j < d.len() {
                assert(d[j] == exti[j]);
            }
            assert(j == exti.len() - 1);
            lemma_exti_occ_len(occ, d);
            lemma_occupy_keeps(exti_occ(occ, d), q, "[[exti]]"@, q);
        }
    }
}

proof fn lemma_pinned_taken(
    instance: Seq<char>,
    peripheral: Seq<char>,
    table: Seq<(String, crate::compiler::config::ConfigValue)>,
    roles: Seq<(Seq<char>, Seq<char>, bool)>,
    db: Seq<AfMapping>,
    occ: Seq<Option<Seq<char>>>,
    q: Pin,
)
    requires
        occ.len() == PIN_SLOTS,
        !is_free(occ, q) || exists|k: int|
            0 <= k < roles.len() && #[trigger] names_pin(table, roles[k].0, q),
    ensures
        pinned_roles(instance, peripheral, table, roles, db, occ) matches Ok(o) ==> !is_free(o, q),
    decreases roles.len(),
{
    if roles.len() > 0 {
        let d = roles.drop_last();
        lemma_pinned_roles_len(instance, peripheral, table, d, db, occ);
        let r = roles.last();
        let later = names_pin(table, r.0, q);
        if !is_free(occ, q) || exists|k: int|
            0 <= k < d.len() && #[trigger] names_pin(table, d[k].0, q) {
            lemma_pinned_taken(instance, peripheral, table, d, db, occ, q);
        } else {
            let k = choose|k: int|
                0 <= k < roles.len() && #[trigger] names_pin(table, roles[k].0, q);
            if k < d.len() {
                assert(d[k] == roles[k]);
                assert(names_pin(table, d[k].0, q));
            }
            assert(later);
        }
        match pinned_roles(instance, peripheral, table, d, db, occ) {
            Ok(o) => match pin_str_spec(table, r.0) {
                Some(v) => match parse_pin_spec(v) {
                    Some(pin) => if carries_on(db, peripheral, r.1, pin) {
                        if later {
                            lemma_occupy_keeps(o, pin, instance + "."@ + r.0, q);
                        } else {
                            lemma_pinned_taken(instance, peripheral, table, d, db, occ, q);
                            lemma_occupy_keeps(o, pin, instance + "."@ + r.0, q);
                        }
                    },
                    None => {},
                },
                None => {},
            },
            Err(_) => {},
        }
    }
}

proof fn lemma_scan_taken(entries: Seq<(String, Peripheral)>, config: Config, db: Seq<AfMapping>, occ: Seq<Option<Seq<char>>>, q: Pin)
    requires
        occ.len() == PIN_SLOTS,
        !is_free(occ, q) || exists|t: int, k: int| #[trigger] fixed_pin(entries, t, k) == Some(q),
    ensures
        scan(entries, config, db, occ) matches Ok(o) ==> !is_free(o, q),
    decreases entries.len(),
{
    if entries.len() > 0 {
        let d = entries.drop_last();
        let e = entries.last();
        lemma_scan_occ_len(d, config, db, occ);
        let in_last = exists|k: int| #[trigger] fixed_pin(entries, entries.len() - 1, k) == Some(q);
        if !is_free(occ, q) || exists|t: int, k: int| #[trigger] fixed_pin(d, t, k) == Some(q) {
            lemma_scan_taken(d, config, db, occ, q);
        } else {
            let (t, k) = choose|t: int, k: int| #[trigger] fixed_pin(entries, t, k) == Some(q);
            if t < d.len() {
                assert(d[t] == entries[t]);
                assert(fixed_pin(d, t, k) == Some(q));
            }
            assert(in_last);
        }
        match scan(d, config, db, occ) {
            Ok(o) => match kind_roles(strip_trailing_digits(e.0@)) {
                Some(roles) => {
                    if in_last {
                        let k = choose|k: int| #[trigger] fixed_pin(entries, entries.len() - 1, k) == Some(q);
                        assert(names_pin(e.1.0@, roles[k].0, q));
                    } else {
                        lemma_scan_taken(d, config, db, occ, q);
                    }
                    lemma_pinned_taken(e.0@, peripheral_name_spec(e.0@), e.1.0@, roles, db, o, q);
                },
                None => {
                    if in_last {
                        let k = choose|k: int| #[trigger] fixed_pin(entries, entries.len() - 1, k) == Some(q);
                        assert(fixed_pin(entries, entries.len() - 1, k) is None);
                    } else {
                        lemma_scan_taken(d, config, db, occ, q);
                    }
                },
            },
            Err(_) => {},
        }
    }
}

/// After the pre-search checks, every parseable `[[exti]]` pin and every pin
/// a table already names for a role of its kind is taken.
pub proof fn lemma_extract_takes_fixed_pins(config: Config, db: Seq<AfMapping>, q: Pin)
    requires
        extract_spec(config, db) is Ok,
        (exists|j: int| 0 <= j < config.exti@.len() && parse_pin_spec((#[trigger] config.exti@[j]).pin@) == Some(q))
            || (exists|t: int, k: int| #[trigger] fixed_pin(config.peripherals@, t, k) == Some(q)),
    ensures
        !is_free(extract_spec(config, db)->Ok_0.1, q),
{
    lemma_exti_occ_len(empty_occ(), config.exti@);
    let o = exti_occ(empty_occ(), config.exti@);
    if exists|j: int| 0 <= j < config.exti@.len() && parse_pin_spec((#[trigger] config.exti@[j]).pin@) == Some(q) {
        lemma_exti_taken(empty_occ(), config.exti@, q);
    }
    lemma_scan_taken(config.peripherals@, config, db, o, q);
}

/// The pins of a successful route are all different, none of them a
/// parseable `[[exti]]` pin or a pin a table already names for a role,
/// each free in the occupancy those leave,
/// and each one that the database maps its role's peripheral signal onto;
/// when any role was open, the configuration with them written in solves
/// with no conflict.
pub proof fn lemma_route_pins_valid(
    config: Config,
    db: Seq<AfMapping>,
    parsed: Seq<Result<crate::compiler::solver::AssertionSubject, String>>,
    m: Seq<((Seq<char>, Seq<char>), Pin)>,
)
    requires
        route_result(config, db, parsed, Ok(m)),
    ensures
        extract_spec(config, db) is Ok,
        ({
            let (roles, occ) = extract_spec(config, db)->Ok_0;
            &&& m.len() == roles.len()
            &&& forall|a: int, b: int| 0 <= a < b < m.len() ==> (#[trigger] m[a]).1 != (#[trigger] m[b]).1
            &&& forall|i: int, j: int| 0 <= i < m.len() && 0 <= j < config.exti@.len() ==> parse_pin_spec(
                (#[trigger] config.exti@[j]).pin@,
            ) != Some((#[trigger] m[i]).1)
            &&& forall|i: int, t: int, k: int| 0 <= i < m.len() ==> #[trigger] fixed_pin(config.peripherals@, t, k) != Some(
                (#[trigger] m[i]).1,
            )
            &&& forall|i: int| 0 <= i < m.len() ==> {
                &&& (#[trigger] m[i]).0 == (roles[i].instance, roles[i].key)
                &&& is_free(occ, m[i].1)
                &&& carries_on(db, roles[i].peripheral, roles[i].signal, m[i].1)
            }
            &&& m.len() > 0 ==> exists|sc: Config, t: crate::db::clock::ClockTree|
                #![trigger merged(config, sc, roles, pins_of_routed(m)), crate::compiler::solver::solve_spec(sc, db, parsed, t)]
                merged(config, sc, roles, pins_of_routed(m))
                && crate::compiler::family_tree(t, config.device.family@)
                && crate::compiler::solver::solve_spec(sc, db, parsed, t).len() == 0
        }),
{
    let (roles, occ) = extract_spec(config, db)->Ok_0;
    lemma_exti_occ_len(empty_occ(), config.exti@);
    lemma_scan_occ_len(config.peripherals@, config, db, exti_occ(empty_occ(), config.exti@));
    let ps = lemma_route_solved(config, db, parsed, m, roles, occ);
    assert forall|i: int| 0 <= i < m.len() implies {
        &&& (#[trigger] m[i]).0 == (roles[i].instance, roles[i].key)
        &&& is_free(occ, m[i].1)
        &&& carries_on(db, roles[i].peripheral, roles[i].signal, m[i].1)
    } by {
        assert(m[i] == routed(roles, ps)[i]);
        assert(ps[i] == m[i].1);
        lemma_open_role_candidates(config.peripherals@, db, occ, i, m[i].1);
    }
    assert forall|a: int, b: int| 0 <= a < b < m.len() implies (#[trigger] m[a]).1 != (#[trigger] m[b]).1 by {
        assert(ps[a] == m[a].1 && ps[b] == m[b].1);
    }
    assert forall|i: int, j: int| 0 <= i < m.len() && 0 <= j < config.exti@.len() implies parse_pin_spec(
        (#[trigger] config.exti@[j]).pin@,
    ) != Some((#[trigger] m[i]).1) by {
        if parse_pin_spec(config.exti@[j].pin@) == Some(m[i].1) {
            lemma_extract_takes_fixed_pins(config, db, m[i].1);
        }
    }
    assert forall|i: int, t: int, k: int| 0 <= i < m.len() implies #[trigger] fixed_pin(config.peripherals@, t, k) != Some(
        (#[trigger] m[i]).1,
    ) by {
        if fixed_pin(config.peripherals@, t, k) == Some(m[i].1) {
            lemma_extract_takes_fixed_pins(config, db, m[i].1);
        }
    }
}

/// The search behind a successful route: its pins form a valid assignment
/// of the open roles, and the route is those roles with those pins.
proof fn lemma_route_solved(
    config: Config,
    db: Seq<AfMapping>,
    parsed: Seq<Result<crate::compiler::solver::AssertionSubject, String>>,
    m: Seq<((Seq<char>, Seq<char>), Pin)>,
    roles: Seq<OpenRoleView>,
    occ: Seq<Option<Seq<char>>>,
) -> (ps: Seq<Pin>)
    requires
        route_result(config, db, parsed, Ok(m)),
        extract_spec(config, db) == Ok::<(Seq<OpenRoleView>, Seq<Option<Seq<char>>>), ConflictView>((roles, occ)),
        occ.len() == PIN_SLOTS,
    ensures
        valid_assignment(roles, 0, occ, ps),
        m == routed(roles, ps),
        pins_of_routed(m) == ps,
        roles == open_roles_spec(config.peripherals@, db, occ),
        roles.len() > 0 ==> exists|sc: Config, t: crate::db::clock::ClockTree|
            #![trigger merged(config, sc, roles, pins_of_routed(m)), crate::compiler::solver::solve_spec(sc, db, parsed, t)]
            merged(config, sc, roles, pins_of_routed(m))
            && crate::compiler::family_tree(t, config.device.family@)
            && crate::compiler::solver::solve_spec(sc, db, parsed, t).len() == 0,
{
    if roles.len() == 0 {
        assert(m =~= routed(roles, Seq::<Pin>::empty()));
        assert(pins_of_routed(m) =~= Seq::<Pin>::empty());
        Seq::empty()
    } else {
        match dfs_spec(roles, 0, occ, 0, db).0 {
            DfsResult::Solved(ps) => {
                lemma_dfs_sound(roles, 0, occ, 0, db);
                lemma_finalized_pins(config, db, parsed, roles, ps, m);
                ps
            },
            DfsResult::BudgetExceeded => {
                let ps = greedy_spec(roles, 0, occ, db)->Ok_0;
                lemma_greedy_sound(roles, 0, occ, db);
                lemma_finalized_pins(config, db, parsed, roles, ps, m);
                ps
            },
            DfsResult::Exhausted(_, _) => Seq::empty(),
        }
    }
}

} // verus!
