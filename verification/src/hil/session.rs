//! The decisions a backend makes during a run, apart from the processes,
//! sockets and files it drives: which errors count as a run failure, how the
//! run's status is settled at the end, where a register lives in memory, how
//! a memory word is read from the bytes a stub returns, and which decoded
//! packets reach a test as ITM events.

use vstd::prelude::*;
use crate::hil::{hil_error_message, HilError, ItmEvent, RunStatus};
use crate::hil::lockstep::copy_bytes;
use crate::itm::Packet;
use crate::text::{owned, str_eq};

verus! {

/// Base address of TIM2 on QEMU's `netduinoplus2` machine.
pub const TIM2_BASE: u32 = 0x4000_0000;

/// Offset of a timer's counter register (`TIMx_CNT`).
pub const TIM_CNT_OFFSET: u32 = 0x24;

/// What an observation error leaves behind as the run's failure: nothing
/// for a peripheral the backend cannot observe (an expected gap), else the
/// error's message.
pub fn failure_note(err: &HilError) -> (r: Option<String>)
    ensures
        *err is NotObservable ==> r is None,
        !(*err is NotObservable) ==> r is Some,
        !(*err is NotObservable) && hil_error_message(*err) is Some ==> r->0@ == hil_error_message(*err)->0,
{
    match err {
        HilError::NotObservable { .. } => None,
        _ => Some(err.to_string()),
    }
}

/// How a run ends: skipped with its reason when the backend's tool or board
/// was missing; else failed with the first recorded observation error; else
/// completed if it was started, and skipped as never started if not.
pub open spec fn run_status_spec(skip: Option<Seq<char>>, failure: Option<Seq<char>>, started: bool) -> (Seq<char>, Seq<char>) {
    match skip {
        Some(reason) => ("skipped"@, reason),
        None => match failure {
            Some(error) => ("failed"@, error),
            None => if started {
                ("completed"@, Seq::empty())
            } else {
                ("skipped"@, "start() was never called"@)
            },
        },
    }
}

/// A run status as a kind and its text.
pub open spec fn status_view(s: RunStatus) -> (Seq<char>, Seq<char>) {
    match s {
        RunStatus::Completed => ("completed"@, Seq::empty()),
        RunStatus::Skipped { reason } => ("skipped"@, reason@),
        RunStatus::Failed { error } => ("failed"@, error@),
    }
}

/// The status a backend reports when its run finishes.
pub fn run_status(skip_reason: &Option<String>, failure: &Option<String>, started: bool) -> (r: RunStatus)
    ensures
        status_view(r) == run_status_spec(
            match skip_reason {
                Some(s) => Some(s@),
                None => None,
            },
            match failure {
                Some(s) => Some(s@),
                None => None,
            },
            started,
        ),
{
    match skip_reason {
        Some(reason) => RunStatus::Skipped { reason: owned(reason.as_str()) },
        None => match failure {
            Some(error) => RunStatus::Failed { error: owned(error.as_str()) },
            None => if started {
                RunStatus::Completed
            } else {
                RunStatus::Skipped { reason: owned("start() was never called") }
            },
        },
    }
}

/// The address of register `offset` of `peripheral` on the QEMU machine:
/// only TIM2 is modelled; any other peripheral is not observable.
pub fn qemu_register_address(peripheral: &str, offset: u32) -> (r: Result<u32, HilError>)
    requires
        peripheral@ == "TIM2"@ ==> TIM2_BASE + offset <= u32::MAX,
    ensures
        peripheral@ == "TIM2"@ ==> r == Ok::<u32, HilError>((TIM2_BASE + offset) as u32),
        peripheral@ != "TIM2"@ ==> (r matches Err(HilError::NotObservable { peripheral: p }) && p@ == peripheral@),
{
    if str_eq(peripheral, "TIM2") {
        Ok(TIM2_BASE + offset)
    } else {
        Err(HilError::NotObservable { peripheral: owned(peripheral) })
    }
}

/// The little-endian value of four bytes.
pub open spec fn le_value(b: Seq<u8>) -> int {
    b[0] + 256 * b[1] + 65536 * b[2] + 16777216 * b[3]
}

/// A memory word from the bytes of a four-byte read; any other length is a
/// malformed reply.
pub fn word_from_bytes(bytes: &Vec<u8>) -> (r: Result<u32, HilError>)
    ensures
        bytes@.len() == 4 ==> (r matches Ok(w) && w as int == le_value(bytes@)),
        bytes@.len() != 4 ==> (r matches Err(HilError::Protocol(m)) && m@ == "expected 4-byte read"@),
{
    if bytes.len() != 4 {
        return Err(HilError::Protocol(owned("expected 4-byte read")));
    }
    let w: u32 = bytes[0] as u32 + 256 * (bytes[1] as u32) + 65536 * (bytes[2] as u32) + 16777216 * (bytes[3] as u32);
    Ok(w)
}

/// The four little-endian bytes of `value`.
pub fn word_bytes(value: u32) -> (r: Vec<u8>)
    ensures
        r@.len() == 4,
        le_value(r@) == value as int,
{
    let b0 = (value % 256) as u8;
    let b1 = ((value / 256) % 256) as u8;
    let b2 = ((value / 65536) % 256) as u8;
    let b3 = (value / 16777216) as u8;
    let r = vec![b0, b1, b2, b3];
    assert(r@[0] == b0 && r@[1] == b1 && r@[2] == b2 && r@[3] == b3);
    assert(b0 + 256 * b1 + 65536 * b2 + 16777216 * b3 == value) by (nonlinear_arith)
        requires
            b0 == value % 256,
            b1 == (value / 256) % 256,
            b2 == (value / 65536) % 256,
            b3 == value / 16777216,
    ;
    r
}

/// The ITM events among `packets`: each instrumentation packet's port and
/// data, in order; every other packet kind is dropped.
pub open spec fn events_of(packets: Seq<Packet>) -> Seq<(u8, Seq<u8>)>
    decreases packets.len(),
{
    if packets.len() == 0 {
        Seq::empty()
    } else {
        let rest = events_of(packets.drop_last());
        match packets.last() {
            Packet::Instrumentation { port, data } => rest.push((port, data@)),
            _ => rest,
        }
    }
}

/// An event as plain values.
pub open spec fn event_view(e: ItmEvent) -> (u8, Seq<u8>) {
    (e.port, e.data@)
}

/// The ITM events carried by decoded packets.
pub fn instrumentation_events(packets: &Vec<Packet>) -> (r: Vec<ItmEvent>)
    ensures
        r@.map_values(|e: ItmEvent| event_view(e)) == events_of(packets@),
{
    let mut out: Vec<ItmEvent> = Vec::new();
    let mut i: usize = 0;
    assert(packets@.take(0) =~= Seq::<Packet>::empty());
    assert(out@.map_values(|e: ItmEvent| event_view(e)) =~= Seq::<(u8, Seq<u8>)>::empty());
    while i < packets.len()
        invariant
            0 <= i <= packets@.len(),
            out@.map_values(|e: ItmEvent| event_view(e)) == events_of(packets@.take(i as int)),
        decreases packets@.len() - i,
    {
        let ghost before = out@;
        assert(packets@.take(i + 1).drop_last() =~= packets@.take(i as int));
        assert(packets@.take(i + 1).last() == packets@[i as int]);
        match &packets[i] {
            Packet::Instrumentation { port, data } => {
                out.push(ItmEvent { port: *port, data: copy_bytes(data) });
                assert(out@.map_values(|e: ItmEvent| event_view(e)) =~= before.map_values(|e: ItmEvent| event_view(e)).push(
                    (*port, data@),
                ));
            },
            _ => {},
        }
        i += 1;
    }
    assert(packets@.take(packets@.len() as int) =~= packets@);
    out
}

} // verus!
