//! DMA stream arbitration: every configured peripheral that opts into DMA
//! (`dma = true`, or `dma = ["tx"]` and the like) requests a stream per
//! direction; requests are granted greedily, in peripheral order, the first
//! free candidate stream; a request that finds every candidate taken
//! contends for its first candidate's stream. One conflict is reported per
//! contested stream, with a free alternative when either side has one.

use vstd::prelude::*;
use crate::compiler::config::{lookup_value, Config, ConfigValue};
use crate::compiler::model::{peripheral_name, peripheral_name_spec};
use crate::compiler::solver::{views, Conflict, ConflictView};
use crate::db::dma::{candidate_slots, direction_of_signal, Controller, Direction, DmaMap, DmaRequest, Slot};
use crate::text::{ascii_upper, dec_digits, owned, to_ascii_uppercase, u64_to_string};

verus! {

/// The directions an array of signal spellings selects: each recognised
/// spelling (`tx`/`mosi`, `rx`/`miso`, any case) once, in first-seen order.
pub open spec fn dirs_of_items(items: Seq<String>) -> Seq<Direction>
    decreases items.len(),
{
    if items.len() == 0 {
        Seq::empty()
    } else {
        let d = dirs_of_items(items.drop_last());
        match direction_of_signal(items.last()@.map_values(|c: char| ascii_upper(c))) {
            Some(x) => if d.contains(x) {
                d
            } else {
                d.push(x)
            },
            None => d,
        }
    }
}

/// The directions a `dma` value requests: both for `true`, none for
/// `false` or a malformed value, the selected ones for an array.
pub open spec fn requested_dirs(v: ConfigValue) -> Seq<Direction> {
    match v {
        ConfigValue::Boolean(b) => if b {
            seq![Direction::Tx, Direction::Rx]
        } else {
            Seq::empty()
        },
        ConfigValue::Array(items) => dirs_of_items(items@),
        _ => Seq::empty(),
    }
}

/// Whether the model has any row for `peripheral`.
pub open spec fn map_has(rows: Seq<DmaRequest>, peripheral: Seq<char>) -> bool {
    exists|i: int| 0 <= i < rows.len() && (#[trigger] rows[i]).peripheral@ == peripheral
}

/// The requests of one peripheral for the directions `dirs`: those with at
/// least one candidate slot.
pub open spec fn dir_requests(rows: Seq<DmaRequest>, p: Seq<char>, dirs: Seq<Direction>) -> Seq<(Seq<char>, Direction)>
    decreases dirs.len(),
{
    if dirs.len() == 0 {
        Seq::empty()
    } else {
        dir_requests(rows, p, dirs.drop_last()) + if candidate_slots(rows, p, dirs.last()).len() > 0 {
            seq![(p, dirs.last())]
        } else {
            Seq::empty()
        }
    }
}

/// Every DMA request of the configured peripherals, in peripheral order:
/// tables with a `dma` key whose peripheral the model knows.
pub open spec fn all_requests(rows: Seq<DmaRequest>, entries: Seq<(String, crate::compiler::config::Peripheral)>) -> Seq<(Seq<char>, Direction)>
    decreases entries.len(),
{
    if entries.len() == 0 {
        Seq::empty()
    } else {
        let e = entries.last();
        let p = peripheral_name_spec(e.0@);
        all_requests(rows, entries.drop_last()) + match lookup_value(e.1.0@, "dma"@) {
            Some(v) => if map_has(rows, p) {
                dir_requests(rows, p, requested_dirs(v))
            } else {
                Seq::empty()
            },
            None => Seq::empty(),
        }
    }
}

/// The index of a stream in the occupancy tables.
pub open spec fn stream_key(c: Controller, stream: u8) -> int {
    match c {
        Controller::Dma1 => stream as int,
        Controller::Dma2 => 256 + stream as int,
    }
}

/// The first slot of `c` whose stream is free in `occ`.
pub open spec fn first_free(c: Seq<Slot>, occ: Seq<Option<usize>>) -> Option<Slot>
    decreases c.len(),
{
    if c.len() == 0 {
        None
    } else if occ[stream_key(c[0].controller, c[0].stream)] is None {
        Some(c[0])
    } else {
        first_free(c.drop_first(), occ)
    }
}

/// The arbitration state after request `ri`: a free candidate is granted;
/// otherwise the request contends, once per stream, with the holder of its
/// first candidate's stream.
pub open spec fn assign_step(
    rows: Seq<DmaRequest>,
    reqs: Seq<(Seq<char>, Direction)>,
    state: (Seq<Option<usize>>, Seq<Option<(usize, usize)>>),
    ri: int,
) -> (Seq<Option<usize>>, Seq<Option<(usize, usize)>>) {
    let (occ, coll) = state;
    let c = candidate_slots(rows, reqs[ri].0, reqs[ri].1);
    if c.len() == 0 {
        state
    } else {
        match first_free(c, occ) {
            Some(slot) => (occ.update(stream_key(slot.controller, slot.stream), Some(ri as usize)), coll),
            None => {
                let k = stream_key(c[0].controller, c[0].stream);
                if coll[k] is None {
                    (occ, coll.update(k, Some((occ[k]->0, ri as usize))))
                } else {
                    state
                }
            },
        }
    }
}

/// The arbitration state after the first `n` requests.
pub open spec fn assign_upto(rows: Seq<DmaRequest>, reqs: Seq<(Seq<char>, Direction)>, n: nat) -> (
    Seq<Option<usize>>,
    Seq<Option<(usize, usize)>>,
)
    decreases n,
{
    if n == 0 {
        (Seq::new(512, |i: int| None), Seq::new(512, |i: int| None))
    } else {
        assign_step(rows, reqs, assign_upto(rows, reqs, (n - 1) as nat), n - 1)
    }
}

/// `DMA1 stream 5 (channel 4)`.
pub open spec fn slot_label_spec(s: Slot) -> Seq<char> {
    (match s.controller {
        Controller::Dma1 => "DMA1"@,
        Controller::Dma2 => "DMA2"@,
    }) + " stream "@ + dec_digits(s.stream as nat) + " (channel "@ + dec_digits(s.channel as nat) + ")"@
}

/// The conflict of the stream at index `k`, if it is contested.
pub open spec fn collision_at(
    rows: Seq<DmaRequest>,
    reqs: Seq<(Seq<char>, Direction)>,
    occ: Seq<Option<usize>>,
    coll: Seq<Option<(usize, usize)>>,
    k: int,
) -> Seq<ConflictView> {
    match coll[k] {
        None => Seq::empty(),
        Some((holder, contender)) => {
            let hp = reqs[holder as int].0;
            let cp = reqs[contender as int].0;
            let suggestion = match first_free(candidate_slots(rows, cp, reqs[contender as int].1), occ) {
                Some(s) => Some((cp, slot_label_spec(s))),
                None => match first_free(candidate_slots(rows, hp, reqs[holder as int].1), occ) {
                    Some(s) => Some((hp, slot_label_spec(s))),
                    None => None,
                },
            };
            seq![ConflictView::DmaCollision {
                first: hp,
                second: cp,
                controller: if k < 256 { "DMA1"@ } else { "DMA2"@ },
                stream: (k % 256) as u8,
                suggestion,
            }]
        },
    }
}

/// The conflicts of the first `k` stream indices, in (controller, stream) order.
pub open spec fn collisions_upto(
    rows: Seq<DmaRequest>,
    reqs: Seq<(Seq<char>, Direction)>,
    occ: Seq<Option<usize>>,
    coll: Seq<Option<(usize, usize)>>,
    k: nat,
) -> Seq<ConflictView>
    decreases k,
{
    if k == 0 {
        Seq::empty()
    } else {
        collisions_upto(rows, reqs, occ, coll, (k - 1) as nat) + collision_at(rows, reqs, occ, coll, k - 1)
    }
}

/// What DMA validation reports for a config.
pub open spec fn dma_conflicts_spec(config: Config, rows: Seq<DmaRequest>) -> Seq<ConflictView> {
    let reqs = all_requests(rows, config.peripherals@);
    let (occ, coll) = assign_upto(rows, reqs, reqs.len());
    collisions_upto(rows, reqs, occ, coll, 512)
}

/// Requests as plain values.
pub open spec fn requests_model(v: Seq<(String, Direction)>) -> Seq<(Seq<char>, Direction)> {
    v.map_values(|r: (String, Direction)| (r.0@, r.1))
}

fn requested_directions(value: &ConfigValue) -> (r: Vec<Direction>)
    ensures
        r@ == requested_dirs(*value),
{
    match value {
        ConfigValue::Boolean(b) => {
            let mut r: Vec<Direction> = Vec::new();
            if *b {
                r.push(Direction::Tx);
                r.push(Direction::Rx);
                assert(r@ =~= seq![Direction::Tx, Direction::Rx]);
            }
            r
        },
        ConfigValue::Array(items) => {
            let mut dirs: Vec<Direction> = Vec::new();
            let mut i: usize = 0;
            while i < items.len()
                invariant
                    0 <= i <= items@.len(),
                    dirs@ == dirs_of_items(items@.take(i as int)),
                decreases items@.len() - i,
            {
                assert(items@.take(i + 1).drop_last() =~= items@.take(i as int));
                assert(items@.take(i + 1).last() == items@[i as int]);
                let upper = to_ascii_uppercase(items[i].as_str());
                match Direction::from_signal(upper.as_str()) {
                    Some(d) => {
                        let mut seen = false;
                        let mut j: usize = 0;
                        while j < dirs.len()
                            invariant
                                0 <= j <= dirs@.len(),
                                seen == exists|t: int| 0 <= t < j && dirs@[t] == d,
                            decreases dirs@.len() - j,
                        {
                            if dirs[j] == d {
                                seen = true;
                            }
                            j += 1;
                        }
                        if !seen {
                            dirs.push(d);
                        } else {
                            proof {
                                let t = choose|t: int| 0 <= t < dirs@.len() && dirs@[t] == d;
                                assert(dirs@.contains(d));
                            }
                        }
                    },
                    None => {},
                }
                i += 1;
            }
            assert(items@.take(items@.len() as int) =~= items@);
            dirs
        },
        _ => Vec::new(),
    }
}

fn push_dir_requests(reqs: &mut Vec<(String, Direction)>, map: &DmaMap, p: &String, dirs: &Vec<Direction>)
    ensures
        requests_model(final(reqs)@) == requests_model(old(reqs)@) + dir_requests(map@, p@, dirs@),
{
    let ghost start = requests_model(reqs@);
    let mut i: usize = 0;
    while i < dirs.len()
        invariant
            0 <= i <= dirs@.len(),
            requests_model(reqs@) == start + dir_requests(map@, p@, dirs@.take(i as int)),
        decreases dirs@.len() - i,
    {
        assert(dirs@.take(i + 1).drop_last() =~= dirs@.take(i as int));
        assert(dirs@.take(i + 1).last() == dirs@[i as int]);
        let d = dirs[i];
        let c = map.candidates(p.as_str(), d);
        let ghost before = requests_model(reqs@);
        if c.len() > 0 {
            reqs.push((owned(p.as_str()), d));
            assert(requests_model(reqs@) =~= before + seq![(p@, d)]);
        } else {
            assert(requests_model(reqs@) =~= before + Seq::<(Seq<char>, Direction)>::empty());
        }
        i += 1;
    }
    assert(dirs@.take(dirs@.len() as int) =~= dirs@);
}

fn collect_requests(config: &Config, map: &DmaMap) -> (reqs: Vec<(String, Direction)>)
    ensures
        requests_model(reqs@) == all_requests(map@, config.peripherals@),
{
    let mut reqs: Vec<(String, Direction)> = Vec::new();
    let mut i: usize = 0;
    assert(requests_model(reqs@) =~= all_requests(map@, config.peripherals@.take(0)));
    while i < config.peripherals.len()
        invariant
            0 <= i <= config.peripherals@.len(),
            requests_model(reqs@) == all_requests(map@, config.peripherals@.take(i as int)),
        decreases config.peripherals@.len() - i,
    {
        let ghost ps = config.peripherals@;
        assert(ps.take(i + 1).drop_last() =~= ps.take(i as int));
        assert(ps.take(i + 1).last() == ps[i as int]);
        let entry = &config.peripherals[i];
        let ghost before = requests_model(reqs@);
        match entry.1.get("dma") {
            Some(v) => {
                let p = peripheral_name(entry.0.as_str());
                if map.has_peripheral(p.as_str()) {
                    let dirs = requested_directions(v);
                    push_dir_requests(&mut reqs, map, &p, &dirs);
                } else {
                    assert(requests_model(reqs@) =~= before + Seq::<(Seq<char>, Direction)>::empty());
                }
            },
            None => {
                assert(requests_model(reqs@) =~= before + Seq::<(Seq<char>, Direction)>::empty());
            },
        }
        i += 1;
    }
    assert(config.peripherals@.take(config.peripherals@.len() as int) =~= config.peripherals@);
    reqs
}

fn key_of(c: Controller, stream: u8) -> (k: usize)
    ensures
        k == stream_key(c, stream),
        k < 512,
{
    match c {
        Controller::Dma1 => stream as usize,
        Controller::Dma2 => 256 + stream as usize,
    }
}

fn first_free_slot(c: &Vec<Slot>, occ: &Vec<Option<usize>>) -> (r: Option<Slot>)
    requires
        occ@.len() == 512,
    ensures
        r == first_free(c@, occ@),
{
    let mut i: usize = 0;
    assert(c@.skip(0) =~= c@);
    while i < c.len()
        invariant
            occ@.len() == 512,
            0 <= i <= c@.len(),
            first_free(c@, occ@) == first_free(c@.skip(i as int), occ@),
        decreases c@.len() - i,
    {
        let s = c[i];
        assert(c@.skip(i as int)[0] == s);
        assert(c@.skip(i as int).drop_first() =~= c@.skip(i + 1));
        if occ[key_of(s.controller, s.stream)].is_none() {
            return Some(s);
        }
        i += 1;
    }
    None
}

fn slot_label(s: Slot) -> (l: String)
    ensures
        l@ == slot_label_spec(s),
{
    let mut l = owned(s.controller.name());
    l.append(" stream ");
    l.append(u64_to_string(s.stream as u64).as_str());
    l.append(" (channel ");
    l.append(u64_to_string(s.channel as u64).as_str());
    l.append(")");
    l
}

/// The state invariant of arbitration after `n` requests: every recorded
/// request index is below `n`.
pub open spec fn state_ok(state: (Seq<Option<usize>>, Seq<Option<(usize, usize)>>), n: int) -> bool {
    &&& state.0.len() == 512
    &&& state.1.len() == 512
    &&& forall|k: int| 0 <= k < 512 ==> (#[trigger] state.0[k] matches Some(x) ==> x < n)
    &&& forall|k: int| 0 <= k < 512 ==> (#[trigger] state.1[k] matches Some((a, b)) ==> a < n && b < n)
}

proof fn lemma_first_free(c: Seq<Slot>, occ: Seq<Option<usize>>)
    requires
        occ.len() == 512,
    ensures
        first_free(c, occ) matches Some(s) ==> occ[stream_key(s.controller, s.stream)] is None,
        c.len() > 0 && first_free(c, occ) is None ==> occ[stream_key(c[0].controller, c[0].stream)] is Some,
    decreases c.len(),
{
    if c.len() > 0 {
        lemma_first_free(c.drop_first(), occ);
    }
}

/// Arbitrate the configured peripherals' DMA requests against the family
/// model, reporting one collision per contested stream in (controller,
/// stream) order, each with a suggested free stream for the contender, or
/// else for the holder, when there is one.
pub fn validate(config: &Config, map: &DmaMap) -> (out: Vec<Conflict>)
    ensures
        views(out@) == dma_conflicts_spec(*config, map@),
{
    let reqs = collect_requests(config, map);
    let ghost rm = requests_model(reqs@);
    let mut occ: Vec<Option<usize>> = Vec::new();
    let mut coll: Vec<Option<(usize, usize)>> = Vec::new();
    let mut z: usize = 0;
    while z < 512
        invariant
            0 <= z <= 512,
            occ@ == Seq::<Option<usize>>::new(z as nat, |i: int| None),
            coll@ == Seq::<Option<(usize, usize)>>::new(z as nat, |i: int| None),
        decreases 512 - z,
    {
        occ.push(None);
        coll.push(None);
        z += 1;
        assert(occ@ =~= Seq::<Option<usize>>::new(z as nat, |i: int| None));
        assert(coll@ =~= Seq::<Option<(usize, usize)>>::new(z as nat, |i: int| None));
    }
    let mut ri: usize = 0;
    assert((occ@, coll@) == assign_upto(map@, rm, 0));
    while ri < reqs.len()
        invariant
            rm == requests_model(reqs@),
            0 <= ri <= reqs@.len(),
            (occ@, coll@) == assign_upto(map@, rm, ri as nat),
            state_ok((occ@, coll@), ri as int),
        decreases reqs@.len() - ri,
    {
        let c = map.candidates(reqs[ri].0.as_str(), reqs[ri].1);
        proof {
            lemma_first_free(c@, occ@);
        }
        if c.len() > 0 {
            match first_free_slot(&c, &occ) {
                Some(slot) => {
                    let k = key_of(slot.controller, slot.stream);
                    occ.set(k, Some(ri));
                },
                None => {
                    let k = key_of(c[0].controller, c[0].stream);
                    if coll[k].is_none() {
                        let holder = match occ[k] {
                            Some(h) => h,
                            None => 0,
                        };
                        coll.set(k, Some((holder, ri)));
                    }
                },
            }
        }
        ri += 1;
        assert(state_ok((occ@, coll@), ri as int));
    }
    let ghost final_occ = occ@;
    let ghost final_coll = coll@;
    let mut out: Vec<Conflict> = Vec::new();
    let mut k: usize = 0;
    assert(views(out@) =~= collisions_upto(map@, rm, final_occ, final_coll, 0));
    while k < 512
        invariant
            rm == requests_model(reqs@),
            occ@ == final_occ,
            coll@ == final_coll,
            state_ok((final_occ, final_coll), reqs@.len() as int),
            0 <= k <= 512,
            views(out@) == collisions_upto(map@, rm, final_occ, final_coll, k as nat),
        decreases 512 - k,
    {
        let ghost before = views(out@);
        match coll[k] {
            Some((holder, contender)) => {
                let hp = &reqs[holder].0;
                let cp = &reqs[contender].0;
                let cslot = first_free_slot(&map.candidates(cp.as_str(), reqs[contender].1), &occ);
                let suggestion = match cslot {
                    Some(sl) => Some((owned(cp.as_str()), slot_label(sl))),
                    None => match first_free_slot(&map.candidates(hp.as_str(), reqs[holder].1), &occ) {
                        Some(sl) => Some((owned(hp.as_str()), slot_label(sl))),
                        None => None,
                    },
                };
                let controller = if k < 256 { owned("DMA1") } else { owned("DMA2") };
                let c = Conflict::DmaCollision {
                    first: owned(hp.as_str()),
                    second: owned(cp.as_str()),
                    controller,
                    stream: (k % 256) as u8,
                    suggestion,
                };
                out.push(c);
                assert(views(out@) =~= before + collision_at(map@, rm, final_occ, final_coll, k as int));
            },
            None => {
                assert(views(out@) =~= before + collision_at(map@, rm, final_occ, final_coll, k as int));
            },
        }
        k += 1;
    }
    out
}

/// The slot request `ri` was granted, if it found a free candidate.
pub open spec fn granted(rows: Seq<DmaRequest>, reqs: Seq<(Seq<char>, Direction)>, ri: int) -> Option<Slot> {
    let c = candidate_slots(rows, reqs[ri].0, reqs[ri].1);
    if c.len() == 0 {
        None
    } else {
        first_free(c, assign_upto(rows, reqs, ri as nat).0)
    }
}

/// The grants of the first `n` requests, in request order.
pub open spec fn grants_upto(rows: Seq<DmaRequest>, reqs: Seq<(Seq<char>, Direction)>, n: nat) -> Seq<(Seq<char>, Direction, Slot)>
    decreases n,
{
    if n == 0 {
        Seq::empty()
    } else {
        grants_upto(rows, reqs, (n - 1) as nat) + match granted(rows, reqs, n - 1) {
            Some(slot) => seq![(reqs[n - 1].0, reqs[n - 1].1, slot)],
            None => Seq::empty(),
        }
    }
}

/// The stream grants of a config's DMA requests, in request order.
pub open spec fn grants_spec(config: Config, rows: Seq<DmaRequest>) -> Seq<(Seq<char>, Direction, Slot)> {
    let reqs = all_requests(rows, config.peripherals@);
    grants_upto(rows, reqs, reqs.len())
}

/// Grants as plain values.
pub open spec fn grants_model(v: Seq<(String, Direction, Slot)>) -> Seq<(Seq<char>, Direction, Slot)> {
    v.map_values(|g: (String, Direction, Slot)| (g.0@, g.1, g.2))
}

/// Run the same greedy arbitration as [`validate`] and return every granted
/// `(peripheral, direction, slot)`, in request order.
pub fn resolve(config: &Config, map: &DmaMap) -> (grants: Vec<(String, Direction, Slot)>)
    ensures
        grants_model(grants@) == grants_spec(*config, map@),
{
    let reqs = collect_requests(config, map);
    let ghost rm = requests_model(reqs@);
    let mut occ: Vec<Option<usize>> = Vec::new();
    let mut coll: Vec<Option<(usize, usize)>> = Vec::new();
    let mut z: usize = 0;
    while z < 512
        invariant
            0 <= z <= 512,
            occ@ == Seq::<Option<usize>>::new(z as nat, |i: int| None),
            coll@ == Seq::<Option<(usize, usize)>>::new(z as nat, |i: int| None),
        decreases 512 - z,
    {
        occ.push(None);
        coll.push(None);
        z += 1;
        assert(occ@ =~= Seq::<Option<usize>>::new(z as nat, |i: int| None));
        assert(coll@ =~= Seq::<Option<(usize, usize)>>::new(z as nat, |i: int| None));
    }
    let mut grants: Vec<(String, Direction, Slot)> = Vec::new();
    let mut ri: usize = 0;
    assert((occ@, coll@) == assign_upto(map@, rm, 0));
    assert(grants_model(grants@) =~= grants_upto(map@, rm, 0));
    while ri < reqs.len()
        invariant
            rm == requests_model(reqs@),
            0 <= ri <= reqs@.len(),
            (occ@, coll@) == assign_upto(map@, rm, ri as nat),
            state_ok((occ@, coll@), ri as int),
            grants_model(grants@) == grants_upto(map@, rm, ri as nat),
        decreases reqs@.len() - ri,
    {
        let c = map.candidates(reqs[ri].0.as_str(), reqs[ri].1);
        proof {
            lemma_first_free(c@, occ@);
        }
        let ghost before = grants_model(grants@);
        if c.len() > 0 {
            match first_free_slot(&c, &occ) {
                Some(slot) => {
                    let k = key_of(slot.controller, slot.stream);
                    occ.set(k, Some(ri));
                    grants.push((owned(reqs[ri].0.as_str()), reqs[ri].1, slot));
                    assert(grants_model(grants@) =~= before + seq![(rm[ri as int].0, rm[ri as int].1, slot)]);
                },
                None => {
                    let k = key_of(c[0].controller, c[0].stream);
                    if coll[k].is_none() {
                        let holder = match occ[k] {
                            Some(h) => h,
                            None => 0,
                        };
                        coll.set(k, Some((holder, ri)));
                    }
                    assert(grants_model(grants@) =~= before + Seq::<(Seq<char>, Direction, Slot)>::empty());
                },
            }
        } else {
            assert(grants_model(grants@) =~= before + Seq::<(Seq<char>, Direction, Slot)>::empty());
        }
        ri += 1;
        assert(state_ok((occ@, coll@), ri as int));
    }
    grants
}

} // verus!
