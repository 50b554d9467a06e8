//! The one check every backend runs before touching the emulator or the
//! hardware: never execute a configuration the verifier rejected.

use vstd::prelude::*;
use crate::compiler::solver::{severity_spec, views, Conflict, Severity, SignalRef};
use crate::compiler::CheckReport;
use crate::hil::HilError;
use crate::text::owned;

verus! {

fn copy_signal_refs(v: &Vec<SignalRef>) -> (r: Vec<SignalRef>)
    ensures
        r@.map_values(|s: SignalRef| crate::compiler::solver::signal_ref_view(s)) == v@.map_values(
            |s: SignalRef| crate::compiler::solver::signal_ref_view(s),
        ),
{
    let mut r: Vec<SignalRef> = Vec::new();
    let mut i: usize = 0;
    while i < v.len()
        invariant
            0 <= i <= v@.len(),
            r@.len() == i,
            forall|j: int|
                0 <= j < i ==> crate::compiler::solver::signal_ref_view(#[trigger] r@[j]) == crate::compiler::solver::signal_ref_view(
                    v@[j],
                ),
        decreases v@.len() - i,
    {
        r.push(SignalRef { peripheral: owned(v[i].peripheral.as_str()), signal: owned(v[i].signal.as_str()) });
        i += 1;
    }
    assert(r@.map_values(|s: SignalRef| crate::compiler::solver::signal_ref_view(s)) =~= v@.map_values(
        |s: SignalRef| crate::compiler::solver::signal_ref_view(s),
    ));
    r
}

/// A copy of a conflict with the same content.
pub fn copy_conflict(c: &Conflict) -> (r: Conflict)
    ensures
        r@ == c@,
        severity_spec(r) == severity_spec(*c),
{
    match c {
        Conflict::PinCollision { pin, users } => Conflict::PinCollision { pin: *pin, users: copy_signal_refs(users) },
        Conflict::AfMismatch { pin, peripheral, signal } => Conflict::AfMismatch {
            pin: *pin,
            peripheral: owned(peripheral.as_str()),
            signal: owned(signal.as_str()),
        },
        Conflict::InvalidPin { peripheral, key, value } => Conflict::InvalidPin {
            peripheral: owned(peripheral.as_str()),
            key: owned(key.as_str()),
            value: owned(value.as_str()),
        },
        Conflict::MissingPin { peripheral, key, signal } => Conflict::MissingPin {
            peripheral: owned(peripheral.as_str()),
            key: owned(key.as_str()),
            signal: owned(signal.as_str()),
        },
        Conflict::ClockDomainDisabled { peripheral, bus } => Conflict::ClockDomainDisabled {
            peripheral: owned(peripheral.as_str()),
            bus: *bus,
        },
        Conflict::PeripheralUnavailable { peripheral, family } => Conflict::PeripheralUnavailable {
            peripheral: owned(peripheral.as_str()),
            family: owned(family.as_str()),
        },
        Conflict::ClockConstraint { node, reason } => Conflict::ClockConstraint {
            node: owned(node.as_str()),
            reason: owned(reason.as_str()),
        },
        Conflict::DmaCollision { first, second, controller, stream, suggestion } => Conflict::DmaCollision {
            first: owned(first.as_str()),
            second: owned(second.as_str()),
            controller: owned(controller.as_str()),
            stream: *stream,
            suggestion: match suggestion {
                Some((a, b)) => Some((owned(a.as_str()), owned(b.as_str()))),
                None => None,
            },
        },
        Conflict::IrqConflict { node, reason, severity } => Conflict::IrqConflict {
            node: owned(node.as_str()),
            reason: owned(reason.as_str()),
            severity: *severity,
        },
        Conflict::Unroutable { node, reason } => Conflict::Unroutable { node: owned(node.as_str()), reason: owned(reason.as_str()) },
        Conflict::InvalidTest { node, reason } => Conflict::InvalidTest {
            node: owned(node.as_str()),
            reason: owned(reason.as_str()),
        },
    }
}

/// The error-severity conflicts of a list, in order.
pub open spec fn errors_of(cs: Seq<Conflict>) -> Seq<Conflict> {
    cs.filter(|c: Conflict| severity_spec(c) == Severity::Error)
}

/// Reject `report` if it carries any error-severity conflict, returning those
/// conflicts; warnings do not block a run.
pub fn gate(report: &CheckReport) -> (r: Result<(), HilError>)
    ensures
        match r {
            Ok(()) => !crate::compiler::has_error(report.conflicts@),
            Err(HilError::Preflight(es)) => crate::compiler::has_error(report.conflicts@) && views(es@) == views(
                errors_of(report.conflicts@),
            ),
            Err(_) => false,
        },
{
    if report.is_ok() {
        return Ok(());
    }
    let ghost pred = |c: Conflict| severity_spec(c) == Severity::Error;
    let mut errors: Vec<Conflict> = Vec::new();
    let mut i: usize = 0;
    while i < report.conflicts.len()
        invariant
            0 <= i <= report.conflicts@.len(),
            pred == (|c: Conflict| severity_spec(c) == Severity::Error),
            views(errors@) == views(report.conflicts@.take(i as int).filter(pred)),
        decreases report.conflicts@.len() - i,
    {
        let ghost before = report.conflicts@.take(i as int);
        assert(report.conflicts@.take(i + 1).drop_last() =~= before);
        reveal(Seq::filter);
        if report.conflicts[i].severity() == Severity::Error {
            let copy = copy_conflict(&report.conflicts[i]);
            let ghost ev = views(errors@);
            errors.push(copy);
            assert(views(errors@) =~= ev.push(copy@));
            assert(report.conflicts@.take(i + 1).filter(pred) =~= before.filter(pred).push(report.conflicts@[i as int]));
            assert(views(before.filter(pred).push(report.conflicts@[i as int])) =~= views(before.filter(pred)).push(
                report.conflicts@[i as int]@,
            ));
        } else {
            assert(report.conflicts@.take(i + 1).filter(pred) =~= before.filter(pred));
        }
        i += 1;
    }
    assert(report.conflicts@.take(report.conflicts@.len() as int) =~= report.conflicts@);
    Err(HilError::Preflight(errors))
}

} // verus!
