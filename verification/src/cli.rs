//! Decisions of the command-line tool that do not touch the outside world.

use vstd::prelude::*;
use crate::compiler::config::Config;
use crate::compiler::plan::{CompiledTest, TestBody};
use crate::compiler::solver::{conflict_message, severity_spec, Conflict, Severity};
use crate::compiler::BackendSelect;
use crate::db::{all_digits, digit_value, digits_value, is_digit};
use crate::hil::TestStatus;
use crate::text::{dec_digits, owned, str_debug, str_debug_spec, u64_to_string};

verus! {

/// The `--backend` filter of `nucleus test`.
#[derive(Debug, Clone, Copy, PartialEq, Eq, Structural)]
pub enum BackendArg {
    Qemu,
    Hardware,
}

/// The labels a scripted test runs on: what the `--backend` filter allows
/// (no filter allows both) intersected with what the test selects, QEMU
/// before hardware. Empty means the test is skipped: the filter narrows,
/// never overrides.
pub open spec fn scripted_labels_spec(filter: Option<BackendArg>, select: BackendSelect) -> Seq<Seq<char>> {
    let qemu = filter != Some(BackendArg::Hardware) && (select == BackendSelect::Both || select == BackendSelect::Qemu);
    let hardware = filter != Some(BackendArg::Qemu) && (select == BackendSelect::Both || select
        == BackendSelect::Hardware);
    (if qemu {
        seq!["qemu"@]
    } else {
        Seq::empty()
    }) + (if hardware {
        seq!["hardware"@]
    } else {
        Seq::empty()
    })
}

/// The backend labels a scripted test should run on.
pub fn scripted_backend_labels(filter: Option<BackendArg>, select: BackendSelect) -> (labels: Vec<&'static str>)
    ensures
        labels@.map_values(|l: &'static str| l@) == scripted_labels_spec(filter, select),
{
    let filter_allows_qemu = !matches!(filter, Some(BackendArg::Hardware));
    let filter_allows_hardware = !matches!(filter, Some(BackendArg::Qemu));
    let select_allows_qemu = matches!(select, BackendSelect::Both | BackendSelect::Qemu);
    let select_allows_hardware = matches!(select, BackendSelect::Both | BackendSelect::Hardware);
    let mut labels: Vec<&'static str> = Vec::new();
    if filter_allows_qemu && select_allows_qemu {
        labels.push("qemu");
    }
    if filter_allows_hardware && select_allows_hardware {
        labels.push("hardware");
    }
    assert(labels@.map_values(|l: &'static str| l@) =~= scripted_labels_spec(filter, select));
    labels
}


/// How a conflict is listed: indented, its severity, then its message.
pub open spec fn conflict_line_spec(c: Conflict) -> Seq<char> {
    "  "@ + (if severity_spec(c) == Severity::Error {
        "error"@
    } else {
        "warning"@
    }) + ": "@ + conflict_message(c)
}

/// The listing line of a conflict.
pub fn conflict_line(c: &Conflict) -> (r: String)
    ensures
        r@ == conflict_line_spec(*c),
{
    let mut r = String::from_str("  ");
    match c.severity() {
        Severity::Error => r.append("error"),
        Severity::Warning => r.append("warning"),
    }
    r.append(": ");
    r.append(c.to_string().as_str());
    r
}

/// `s` unless there is exactly one.
pub open spec fn plural(n: nat) -> Seq<char> {
    if n == 1 {
        ""@
    } else {
        "s"@
    }
}

fn plural_str(n: usize) -> (r: &'static str)
    ensures
        r@ == plural(n as nat),
{
    if n == 1 {
        ""
    } else {
        "s"
    }
}

/// The heading above the conflicts of a rejected config.
pub fn conflicts_heading(subject: &str, n: usize) -> (r: String)
    ensures
        r@ == subject@ + ": "@ + dec_digits(n as nat) + " conflict"@ + plural(n as nat) + " found:\n"@,
{
    let mut r = owned(subject);
    r.append(": ");
    r.append(u64_to_string(n as u64).as_str());
    r.append(" conflict");
    r.append(plural_str(n));
    r.append(" found:\n");
    r
}

/// The heading above the conflicts of a config that could not be routed.
pub fn route_failure_heading(subject: &str, n: usize) -> (r: String)
    ensures
        r@ == subject@ + ": could not route ("@ + dec_digits(n as nat) + " conflict"@ + plural(n as nat) + "):\n"@,
{
    let mut r = owned(subject);
    r.append(": could not route (");
    r.append(u64_to_string(n as u64).as_str());
    r.append(" conflict");
    r.append(plural_str(n));
    r.append("):\n");
    r
}

/// The line printed for a config without errors.
pub fn check_ok_line(subject: &str, peripherals: usize) -> (r: String)
    ensures
        r@ == subject@ + " OK — "@ + dec_digits(peripherals as nat) + " peripheral(s), no conflicts."@,
{
    let mut r = owned(subject);
    r.append(" OK — ");
    r.append(u64_to_string(peripherals as u64).as_str());
    r.append(" peripheral(s), no conflicts.");
    r
}

/// The tag a test's verdict is printed with.
pub fn status_icon(s: TestStatus) -> (r: &'static str)
    ensures
        r@ == match s {
            TestStatus::Passed => "PASS"@,
            TestStatus::Failed => "FAIL"@,
            TestStatus::Skipped => "SKIP"@,
        },
{
    match s {
        TestStatus::Passed => "PASS",
        TestStatus::Failed => "FAIL",
        TestStatus::Skipped => "SKIP",
    }
}

/// Whether a test is named `name`.
pub open spec fn has_name(name: Seq<char>) -> spec_fn(CompiledTest) -> bool {
    |t: CompiledTest| t.name@ == name
}

/// The tests a `--test` filter keeps: all of them without a filter, else
/// those with that name; a filter that matches nothing is an error.
pub fn select_tests(plan: Vec<CompiledTest>, name: Option<&str>) -> (r: Result<Vec<CompiledTest>, String>)
    ensures
        name is None ==> r == Ok::<Vec<CompiledTest>, String>(plan),
        name matches Some(n) ==> {
            let kept = plan@.filter(has_name(n@));
            &&& kept.len() > 0 ==> (r matches Ok(v) && v@ == kept)
            &&& kept.len() == 0 ==> (r matches Err(m) && m@ == "no test named "@ + str_debug_spec(n@))
        },
{
    match name {
        None => Ok(plan),
        Some(n) => {
            let ghost orig = plan@;
            let ghost pred = has_name(n@);
            let mut rest = plan;
            let total = rest.len();
            let mut kept: Vec<CompiledTest> = Vec::new();
            let mut i: usize = 0;
            while rest.len() > 0
                invariant
                    0 <= i <= orig.len(),
                    orig.len() == total,
                    rest@ == orig.skip(i as int),
                    pred == has_name(n@),
                    kept@ == orig.take(i as int).filter(pred),
                decreases rest@.len(),
            {
                let t = rest.remove(0);
                proof {
                    reveal_with_fuel(Seq::<_>::filter, 1);
                    assert(orig.take(i + 1).drop_last() =~= orig.take(i as int));
                    assert(orig.take(i + 1).last() == t);
                    assert(rest@ =~= orig.skip(i + 1));
                }
                if crate::text::str_eq(t.name.as_str(), n) {
                    kept.push(t);
                }
                i += 1;
            }
            assert(orig.take(i as int) =~= orig);
            if kept.len() == 0 {
                let mut m = String::from_str("no test named ");
                m.append(str_debug(n).as_str());
                Err(m)
            } else {
                Ok(kept)
            }
        },
    }
}

/// Whether a test runs a script rather than a declarative assertion.
pub open spec fn is_scripted() -> spec_fn(CompiledTest) -> bool {
    |t: CompiledTest| t.body is Scripted
}

/// Whether a test is declarative.
pub open spec fn is_declarative() -> spec_fn(CompiledTest) -> bool {
    |t: CompiledTest| !(t.body is Scripted)
}

/// The scripted tests and the declarative ones, each in plan order.
pub fn split_tests(plan: Vec<CompiledTest>) -> (r: (Vec<CompiledTest>, Vec<CompiledTest>))
    ensures
        r.0@ == plan@.filter(is_scripted()),
        r.1@ == plan@.filter(is_declarative()),
{
    let ghost orig = plan@;
    let mut rest = plan;
    let total = rest.len();
    let mut scripted: Vec<CompiledTest> = Vec::new();
    let mut declarative: Vec<CompiledTest> = Vec::new();
    let mut i: usize = 0;
    while rest.len() > 0
        invariant
            0 <= i <= orig.len(),
            orig.len() == total,
            rest@ == orig.skip(i as int),
            scripted@ == orig.take(i as int).filter(is_scripted()),
            declarative@ == orig.take(i as int).filter(is_declarative()),
        decreases rest@.len(),
    {
        let t = rest.remove(0);
        proof {
            reveal_with_fuel(Seq::<_>::filter, 1);
            assert(orig.take(i + 1).drop_last() =~= orig.take(i as int));
            assert(orig.take(i + 1).last() == t);
            assert(rest@ =~= orig.skip(i + 1));
        }
        match t.body {
            TestBody::Scripted { .. } => scripted.push(t),
            _ => declarative.push(t),
        }
        i += 1;
    }
    assert(orig.take(i as int) =~= orig);
    (scripted, declarative)
}

/// The text after the last `:` of `s`, or all of `s` without one.
pub open spec fn after_last_colon(s: Seq<char>) -> Seq<char>
    decreases s.len(),
{
    if s.len() == 0 {
        s
    } else if s.last() == ':' {
        Seq::empty()
    } else {
        after_last_colon(s.drop_last()).push(s.last())
    }
}

/// What `u16` parsing makes of `t`: an optional `+`, then decimal digits
/// whose value fits.
pub open spec fn parse_u16_spec(t: Seq<char>) -> Option<nat> {
    let body = if t.len() > 0 && t[0] == '+' {
        t.skip(1)
    } else {
        t
    };
    if body.len() > 0 && all_digits(body) && digits_value(body) <= 65535 {
        Some(digits_value(body))
    } else {
        None
    }
}

/// The port a trace address names after its last `:`, or 3344 when that is
/// not a port number.
pub open spec fn trace_port_spec(addr: Seq<char>) -> nat {
    match parse_u16_spec(after_last_colon(addr)) {
        Some(p) => p,
        None => 3344,
    }
}

/// The TCP port of a `host:port` trace address, for OpenOCD's set-up.
pub fn trace_port(addr: &str) -> (p: u16)
    ensures
        p as nat == trace_port_spec(addr@),
{
    let n = addr.unicode_len();
    let mut k: usize = n;
    assert(addr@.take(n as int) =~= addr@);
    assert(after_last_colon(addr@) =~= after_last_colon(addr@.take(n as int)) + addr@.skip(n as int));
    while k > 0 && addr.get_char(k - 1) != ':'
        invariant
            0 <= k <= n,
            n == addr@.len(),
            after_last_colon(addr@) == after_last_colon(addr@.take(k as int)) + addr@.skip(k as int),
        decreases k,
    {
        proof {
            let t = addr@.take(k as int);
            assert(t.drop_last() =~= addr@.take(k - 1));
            assert(t.last() == addr@[k - 1]);
            assert(addr@.skip(k - 1) =~= seq![addr@[k - 1]] + addr@.skip(k as int));
            assert(after_last_colon(t) == after_last_colon(t.drop_last()).push(t.last()));
            assert(after_last_colon(t.drop_last()).push(t.last()) + addr@.skip(k as int) =~= after_last_colon(
                t.drop_last(),
            ) + addr@.skip(k - 1));
        }
        k -= 1;
    }
    proof {
        let t = addr@.take(k as int);
        if k > 0 {
            assert(t.last() == ':');
            assert(after_last_colon(t) =~= Seq::<char>::empty());
        } else {
            assert(t =~= Seq::<char>::empty());
        }
        assert(after_last_colon(addr@) =~= addr@.skip(k as int));
    }
    let ghost tail = addr@.skip(k as int);
    let mut i: usize = k;
    if i < n && addr.get_char(i) == '+' {
        i += 1;
    }
    let ghost body = addr@.skip(i as int);
    proof {
        if i == k + 1 {
            assert(tail.skip(1) =~= body);
        } else {
            assert(tail =~= body);
        }
    }
    if i >= n {
        assert(body.len() == 0);
        return 3344;
    }
    let mut acc: u32 = 0;
    let start = i;
    while i < n
        invariant
            start <= i <= n,
            start < n,
            n == addr@.len(),
            body == addr@.skip(start as int),
            parse_u16_spec(tail) == (if body.len() > 0 && all_digits(body) && digits_value(body) <= 65535 {
                Some(digits_value(body))
            } else {
                None
            }),
            trace_port_spec(addr@) == match parse_u16_spec(tail) {
                Some(p) => p,
                None => 3344,
            },
            all_digits(body.take(i - start)),
            acc as nat == if digits_value(body.take(i - start)) < 70000 {
                digits_value(body.take(i - start))
            } else {
                70000
            },
        decreases n - i,
    {
        let c = addr.get_char(i);
        assert(body[i - start] == c);
        if !('0' <= c && c <= '9') {
            return 3344;
        }
        let d = (c as u32) - 48;
        proof {
            let j = (i - start) as int;
            assert(body.take(j + 1).drop_last() =~= body.take(j));
            assert(body.take(j + 1).last() == c);
            assert(digit_value(c) == d);
            assert forall|x: int| 0 <= x < j + 1 implies is_digit(#[trigger] body.take(j + 1)[x]) by {
                if x < j {
                    assert(body.take(j + 1)[x] == body.take(j)[x]);
                }
            }
        }
        if acc >= 70000 || acc * 10 + d >= 70000 {
            acc = 70000;
        } else {
            acc = acc * 10 + d;
        }
        i += 1;
    }
    assert(body.take(n - start) =~= body);
    if acc <= 65535 {
        acc as u16
    } else {
        3344
    }
}

/// The core and SWO clocks tracing is set up with: the config's, else
/// 180 MHz and 2 MHz, each as a 32-bit value.
pub fn trace_clocks(config: &Config) -> (r: (u32, u32))
    ensures
        r.0 == (match config.device.clock_hz {
            Some(hz) => hz,
            None => 180_000_000,
        }) as u32,
        r.1 == (match config.trace.swo_freq {
            Some(hz) => hz,
            None => 2_000_000,
        }) as u32,
{
    let cpu: u64 = match config.device.clock_hz {
        Some(hz) => hz,
        None => 180_000_000,
    };
    let swo: u64 = match config.trace.swo_freq {
        Some(hz) => hz,
        None => 2_000_000,
    };
    (cpu as u32, swo as u32)
}


// ---------------------------------------------------------------------------
// `nucleus test`'s verdict
// ---------------------------------------------------------------------------

/// The backends `nucleus test` runs declarative tests on for a `--backend`
/// filter: both (QEMU first) without one, else the one it names.
pub open spec fn backends_for_spec(filter: Option<BackendArg>) -> Seq<crate::hil::BackendKind> {
    match filter {
        None => seq![crate::hil::BackendKind::Qemu, crate::hil::BackendKind::Hardware],
        Some(BackendArg::Qemu) => seq![crate::hil::BackendKind::Qemu],
        Some(BackendArg::Hardware) => seq![crate::hil::BackendKind::Hardware],
    }
}

/// The backends to run declarative tests on.
pub fn backends_for(filter: Option<BackendArg>) -> (r: Vec<crate::hil::BackendKind>)
    ensures
        r@ == backends_for_spec(filter),
{
    match filter {
        None => vec![crate::hil::BackendKind::Qemu, crate::hil::BackendKind::Hardware],
        Some(BackendArg::Qemu) => vec![crate::hil::BackendKind::Qemu],
        Some(BackendArg::Hardware) => vec![crate::hil::BackendKind::Hardware],
    }
}

/// What happened during a `nucleus test` run that bears on its exit code.
#[derive(Debug, Clone, Copy, PartialEq, Eq, Structural)]
pub enum RunEvent {
    /// A backend did not start; `tool_missing` when its tool is not
    /// installed (the backend is then skipped).
    StartFailed { tool_missing: bool },
    /// A declarative test ended with this status.
    Outcome(TestStatus),
    /// A scripted test's `cargo test` ran and exited, successfully or not.
    ScriptExited { success: bool },
    /// A scripted test's `cargo test` could not be launched.
    ScriptLaunchFailed,
}

/// Whether an event fails the run: a backend that could not start for any
/// reason but a missing tool, a failed test, a failed or unlaunchable
/// script. Passes and skips never do.
pub open spec fn event_fails(e: RunEvent) -> bool {
    match e {
        RunEvent::StartFailed { tool_missing } => !tool_missing,
        RunEvent::Outcome(s) => s == TestStatus::Failed,
        RunEvent::ScriptExited { success } => !success,
        RunEvent::ScriptLaunchFailed => true,
    }
}

/// The event of a backend whose start failed with `err`.
pub fn start_failed(err: &crate::hil::HilError) -> (e: RunEvent)
    ensures
        e == (RunEvent::StartFailed { tool_missing: *err is ToolMissing }),
{
    match err {
        crate::hil::HilError::ToolMissing(_) => RunEvent::StartFailed { tool_missing: true },
        _ => RunEvent::StartFailed { tool_missing: false },
    }
}

/// Whether a run with these events fails: exactly when one of them does.
/// `nucleus test` exits with status 1 then, and 0 otherwise.
pub fn run_failed(events: &Vec<RunEvent>) -> (r: bool)
    ensures
        r == exists|i: int| 0 <= i < events@.len() && event_fails(#[trigger] events@[i]),
{
    let mut i: usize = 0;
    while i < events.len()
        invariant
            0 <= i <= events@.len(),
            forall|j: int| 0 <= j < i ==> !event_fails(#[trigger] events@[j]),
        decreases events@.len() - i,
    {
        let e = events[i];
        let fails = match e {
            RunEvent::StartFailed { tool_missing } => !tool_missing,
            RunEvent::Outcome(s) => s == TestStatus::Failed,
            RunEvent::ScriptExited { success } => !success,
            RunEvent::ScriptLaunchFailed => true,
        };
        if fails {
            assert(event_fails(events@[i as int]));
            return true;
        }
        i += 1;
    }
    false
}

} // verus!
