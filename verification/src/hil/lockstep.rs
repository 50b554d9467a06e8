//! Lockstep co-execution: the same firmware runs on two backends, each run
//! yields an [`ObservationTrace`] of ITM checkpoints, and [`compare`] finds
//! the first checkpoint where the two disagree. The report is a bare diff:
//! which checkpoint, which observable, what each side saw.

use vstd::prelude::*;
use crate::hil::ItmEvent;
use crate::itm::Packet;
use crate::text::{dec_digits, owned, str_eq, u64_to_string};
use crate::trace::{decode_spec, TraceEvent, TraceValue, Translator, VarType, VariableMap};

verus! {

/// A checkpoint's decoded variable: its name, its value, and the value's
/// JSON rendering (how the trace stream shows it).
#[derive(Debug, Clone, PartialEq, Eq)]
pub struct Decoded {
    pub name: String,
    pub value: TraceValue,
    pub text: String,
}

/// One sync point: the raw ITM event, plus the variable it decodes to when
/// its port is configured.
#[derive(Debug, Clone, PartialEq, Eq)]
pub struct Checkpoint {
    pub itm_event: ItmEvent,
    pub decoded: Option<Decoded>,
}

/// Every checkpoint of one backend's run, in observation order.
#[derive(Debug, Clone, PartialEq, Eq)]
pub struct ObservationTrace {
    pub checkpoints: Vec<Checkpoint>,
}

/// The result of comparing two traces.
#[derive(Debug, Clone, PartialEq, Eq)]
pub enum DivergenceReport {
    /// Both traces had the same length and agreed at every checkpoint.
    Agreement { checkpoints_compared: usize },
    /// The first index where the two traces disagree.
    Diverged {
        first_checkpoint: usize,
        /// The differing variable's name, or `"itm_event"` when the raw
        /// event differed or one side ran out of checkpoints.
        observable: String,
        sim_value: String,
        silicon_value: String,
    },
}

/// What decoding `event` against `vars` gives: the variable's name and
/// value for a configured port other than the log port 0, else nothing.
pub open spec fn decode_event_spec(vars: Map<u8, (Seq<char>, VarType)>, event: ItmEvent) -> Option<(Seq<char>, TraceValue)> {
    if event.port != 0 && vars.contains_key(event.port) {
        Some((vars[event.port].0, decode_spec(vars[event.port].1, event.data@)))
    } else {
        None
    }
}

/// What replaying `event` through a translator for `vars` yields.
pub open spec fn replayed(events: Seq<TraceEvent>, vars: Map<u8, (Seq<char>, VarType)>, event: ItmEvent) -> bool {
    if event.port == 0 {
        forall|j: int| 0 <= j < events.len() ==> !(#[trigger] events[j] is Variable)
    } else if vars.contains_key(event.port) {
        events.len() == 1 && (events[0] matches TraceEvent::Variable { name, value, .. } && name@ == vars[event.port].0
            && value == decode_spec(vars[event.port].1, event.data@))
    } else {
        events.len() == 0
    }
}

/// Decode `event` against `vars` by replaying it through a [`Translator`],
/// as the trace daemon would: the first decoded variable, if any.
pub fn decode(vars: &VariableMap, event: &ItmEvent) -> (r: Option<(String, TraceValue)>)
    ensures
        match decode_event_spec(vars@, *event) {
            Some((name, value)) => r matches Some((n, v)) && n@ == name && v == value,
            None => r is None,
        },
{
    let mut translator = Translator::new(vars.duplicate());
    let packet = Packet::Instrumentation { port: event.port, data: copy_bytes(&event.data) };
    let events = translator.translate(&packet);
    proof {
        if event.port == 0 {
            assert forall|j: int| 0 <= j < events@.len() implies !(#[trigger] events@[j] is Variable) by {
                assert(events@[j] is Log);
            }
        }
    }
    assert(replayed(events@, vars@, *event));
    let mut i: usize = 0;
    while i < events.len()
        invariant
            replayed(events@, vars@, *event),
            0 <= i <= events@.len(),
            forall|j: int| 0 <= j < i ==> !(#[trigger] events@[j] is Variable),
        decreases events@.len() - i,
    {
        if let TraceEvent::Variable { name, value, .. } = &events[i] {
            assert(event.port != 0);
            return Some((owned(name.as_str()), *value));
        }
        i += 1;
    }
    None
}

pub(crate) fn copy_bytes(v: &Vec<u8>) -> (out: Vec<u8>)
    ensures
        out@ == v@,
{
    let mut out: Vec<u8> = Vec::new();
    let mut i: usize = 0;
    while i < v.len()
        invariant
            0 <= i <= v@.len(),
            out@ == v@.take(i as int),
        decreases v@.len() - i,
    {
        out.push(v[i]);
        assert(v@.take(i + 1) =~= v@.take(i as int).push(v@[i as int]));
        i += 1;
    }
    assert(v@.take(v@.len() as int) =~= v@);
    out
}

/// The integer a non-float value denotes.
pub open spec fn int_value(v: TraceValue) -> int {
    match v {
        TraceValue::U16(x) => x as int,
        TraceValue::U32(x) => x as int,
        TraceValue::I32(x) => x as int,
        TraceValue::F32Bits(_) => 0,
    }
}

/// An `f32` whose JSON form is `null`: an infinity or a NaN (exponent all ones).
pub open spec fn f32_non_finite(bits: u32) -> bool {
    bits & 0x7f80_0000 == 0x7f80_0000
}

/// Two values equal as JSON values: integers by value; floats compare as
/// numbers (so `0.0` equals `-0.0`), and every non-finite float is `null`;
/// an integer never equals a float.
pub open spec fn json_eq(a: TraceValue, b: TraceValue) -> bool {
    match (a, b) {
        (TraceValue::F32Bits(x), TraceValue::F32Bits(y)) => if f32_non_finite(x) || f32_non_finite(y) {
            f32_non_finite(x) && f32_non_finite(y)
        } else {
            x == y || (x & 0x7fff_ffff == 0 && y & 0x7fff_ffff == 0)
        },
        (TraceValue::F32Bits(_), _) => false,
        (_, TraceValue::F32Bits(_)) => false,
        _ => int_value(a) == int_value(b),
    }
}

fn values_equal(a: TraceValue, b: TraceValue) -> (r: bool)
    ensures
        r == json_eq(a, b),
{
    match (a, b) {
        (TraceValue::F32Bits(x), TraceValue::F32Bits(y)) => {
            let nx = x & 0x7f80_0000 == 0x7f80_0000;
            let ny = y & 0x7f80_0000 == 0x7f80_0000;
            if nx || ny {
                nx && ny
            } else {
                x == y || (x & 0x7fff_ffff == 0 && y & 0x7fff_ffff == 0)
            }
        },
        (TraceValue::F32Bits(_), _) => false,
        (_, TraceValue::F32Bits(_)) => false,
        _ => {
            let ia: i64 = match a {
                TraceValue::U16(x) => x as i64,
                TraceValue::U32(x) => x as i64,
                TraceValue::I32(x) => x as i64,
                TraceValue::F32Bits(_) => 0,
            };
            let ib: i64 = match b {
                TraceValue::U16(x) => x as i64,
                TraceValue::U32(x) => x as i64,
                TraceValue::I32(x) => x as i64,
                TraceValue::F32Bits(_) => 0,
            };
            ia == ib
        },
    }
}

/// Two decoded observations agree: both absent, or the same name with
/// JSON-equal values.
pub open spec fn decoded_agree(a: Option<Decoded>, b: Option<Decoded>) -> bool {
    match (a, b) {
        (None, None) => true,
        (Some(x), Some(y)) => x.name@ == y.name@ && json_eq(x.value, y.value),
        _ => false,
    }
}

/// Two raw events are the same.
pub open spec fn events_agree(a: ItmEvent, b: ItmEvent) -> bool {
    a.port == b.port && a.data@ == b.data@
}

/// Two checkpoints agree on both the decoded value and the raw event.
pub open spec fn checkpoints_agree(a: Checkpoint, b: Checkpoint) -> bool {
    decoded_agree(a.decoded, b.decoded) && events_agree(a.itm_event, b.itm_event)
}

/// `a, b, c` for the bytes of `data`.
pub open spec fn byte_list(data: Seq<u8>) -> Seq<char>
    decreases data.len(),
{
    if data.len() == 0 {
        Seq::empty()
    } else if data.len() == 1 {
        dec_digits(data[0] as nat)
    } else {
        byte_list(data.drop_last()) + ", "@ + dec_digits(data.last() as nat)
    }
}

/// The `Debug` rendering of an event, e.g. `ItmEvent { port: 0, data: [75] }`.
pub open spec fn event_text(e: ItmEvent) -> Seq<char> {
    "ItmEvent { port: "@ + dec_digits(e.port as nat) + ", data: ["@ + byte_list(e.data@) + "] }"@
}

/// How a decoded observation is shown: its value's JSON text, or
/// `<undecoded>`.
pub open spec fn decoded_text(d: Option<Decoded>) -> Seq<char> {
    match d {
        Some(x) => x.text@,
        None => "<undecoded>"@,
    }
}

/// Whether the traces agree at index `i` (both have a checkpoint there and
/// the two agree).
pub open spec fn agree_at(sim: Seq<Checkpoint>, sil: Seq<Checkpoint>, i: int) -> bool {
    i < sim.len() && i < sil.len() && checkpoints_agree(sim[i], sil[i])
}

/// The report for the first disagreement, at index `i`.
pub open spec fn divergence_at(sim: Seq<Checkpoint>, sil: Seq<Checkpoint>, i: int, r: DivergenceReport) -> bool {
    r matches DivergenceReport::Diverged { first_checkpoint, observable, sim_value, silicon_value } && first_checkpoint
        == i && if i < sim.len() && i < sil.len() {
        let (s, h) = (sim[i], sil[i]);
        if !decoded_agree(s.decoded, h.decoded) {
            &&& observable@ == match (s.decoded, h.decoded) {
                (Some(x), _) => x.name@,
                (None, Some(y)) => y.name@,
                (None, None) => "itm_event"@,
            }
            &&& sim_value@ == decoded_text(s.decoded)
            &&& silicon_value@ == decoded_text(h.decoded)
        } else {
            &&& observable@ == "itm_event"@
            &&& sim_value@ == event_text(s.itm_event)
            &&& silicon_value@ == event_text(h.itm_event)
        }
    } else if i < sim.len() {
        observable@ == "itm_event"@ && sim_value@ == event_text(sim[i].itm_event) && silicon_value@ == "<no event>"@
    } else {
        observable@ == "itm_event"@ && sim_value@ == "<no event>"@ && silicon_value@ == event_text(sil[i].itm_event)
    }
}

fn event_debug(e: &ItmEvent) -> (s: String)
    ensures
        s@ == event_text(*e),
{
    let mut s = String::from_str("ItmEvent { port: ");
    s.append(u64_to_string(e.port as u64).as_str());
    s.append(", data: [");
    let ghost start = s@;
    let mut i: usize = 0;
    while i < e.data.len()
        invariant
            0 <= i <= e.data@.len(),
            s@ == start + byte_list(e.data@.take(i as int)),
        decreases e.data@.len() - i,
    {
        assert(e.data@.take(i + 1).drop_last() =~= e.data@.take(i as int));
        if i > 0 {
            s.append(", ");
        } else {
            assert(e.data@.take(0) =~= Seq::<u8>::empty());
        }
        s.append(u64_to_string(e.data[i] as u64).as_str());
        i += 1;
        assert(s@ =~= start + byte_list(e.data@.take(i as int)));
    }
    assert(e.data@.take(e.data@.len() as int) =~= e.data@);
    s.append("] }");
    s
}

fn decoded_display(d: &Option<Decoded>) -> (s: String)
    ensures
        s@ == decoded_text(*d),
{
    match d {
        Some(x) => owned(x.text.as_str()),
        None => owned("<undecoded>"),
    }
}

fn decoded_same(a: &Option<Decoded>, b: &Option<Decoded>) -> (r: bool)
    ensures
        r == decoded_agree(*a, *b),
{
    match (a, b) {
        (None, None) => true,
        (Some(x), Some(y)) => str_eq(x.name.as_str(), y.name.as_str()) && values_equal(x.value, y.value),
        _ => false,
    }
}

fn events_same(a: &ItmEvent, b: &ItmEvent) -> (r: bool)
    ensures
        r == events_agree(*a, *b),
{
    if a.port != b.port || a.data.len() != b.data.len() {
        return false;
    }
    let mut i: usize = 0;
    while i < a.data.len()
        invariant
            a.data@.len() == b.data@.len(),
            0 <= i <= a.data@.len(),
            forall|j: int| 0 <= j < i ==> a.data@[j] == b.data@[j],
        decreases a.data@.len() - i,
    {
        if a.data[i] != b.data[i] {
            return false;
        }
        i += 1;
    }
    assert(a.data@ =~= b.data@);
    true
}

/// Compare two traces checkpoint by checkpoint, stopping at the first
/// disagreement. Equal length and agreement at every index is
/// `Agreement`; anything else, one trace running out before the other
/// included, is `Diverged` at the first index where they differ.
pub fn compare(sim: &ObservationTrace, silicon: &ObservationTrace) -> (r: DivergenceReport)
    ensures
        ({
            let (s, h) = (sim.checkpoints@, silicon.checkpoints@);
            let len = if s.len() >= h.len() { s.len() } else { h.len() };
            if forall|i: int| 0 <= i < len ==> agree_at(s, h, i) {
                r == DivergenceReport::Agreement { checkpoints_compared: len as usize }
            } else {
                exists|i: int|
                    0 <= i < len && !agree_at(s, h, i) && (forall|j: int| 0 <= j < i ==> agree_at(s, h, j))
                        && divergence_at(s, h, i, r)
            }
        }),
{
    let ghost s = sim.checkpoints@;
    let ghost h = silicon.checkpoints@;
    let n = sim.checkpoints.len();
    let m = silicon.checkpoints.len();
    let len = if n >= m { n } else { m };
    let mut i: usize = 0;
    while i < len
        invariant
            s == sim.checkpoints@,
            h == silicon.checkpoints@,
            n == s.len(),
            m == h.len(),
            len == if n >= m { n } else { m },
            0 <= i <= len,
            forall|j: int| 0 <= j < i ==> agree_at(s, h, j),
        decreases len - i,
    {
        if i < n && i < m {
            let sc = &sim.checkpoints[i];
            let hc = &silicon.checkpoints[i];
            if !decoded_same(&sc.decoded, &hc.decoded) {
                let observable = match (&sc.decoded, &hc.decoded) {
                    (Some(x), _) => owned(x.name.as_str()),
                    (None, Some(y)) => owned(y.name.as_str()),
                    (None, None) => owned("itm_event"),
                };
                let r = DivergenceReport::Diverged {
                    first_checkpoint: i,
                    observable,
                    sim_value: decoded_display(&sc.decoded),
                    silicon_value: decoded_display(&hc.decoded),
                };
                assert(!agree_at(s, h, i as int));
                assert(divergence_at(s, h, i as int, r));
                return r;
            }
            if !events_same(&sc.itm_event, &hc.itm_event) {
                let r = DivergenceReport::Diverged {
                    first_checkpoint: i,
                    observable: owned("itm_event"),
                    sim_value: event_debug(&sc.itm_event),
                    silicon_value: event_debug(&hc.itm_event),
                };
                assert(!agree_at(s, h, i as int));
                assert(divergence_at(s, h, i as int, r));
                return r;
            }
        } else if i < n {
            let r = DivergenceReport::Diverged {
                first_checkpoint: i,
                observable: owned("itm_event"),
                sim_value: event_debug(&sim.checkpoints[i].itm_event),
                silicon_value: owned("<no event>"),
            };
            assert(!agree_at(s, h, i as int));
            assert(divergence_at(s, h, i as int, r));
            return r;
        } else {
            let r = DivergenceReport::Diverged {
                first_checkpoint: i,
                observable: owned("itm_event"),
                sim_value: owned("<no event>"),
                silicon_value: event_debug(&silicon.checkpoints[i].itm_event),
            };
            assert(!agree_at(s, h, i as int));
            assert(divergence_at(s, h, i as int, r));
            return r;
        }
        i += 1;
    }
    DivergenceReport::Agreement { checkpoints_compared: len }
}

} // verus!
