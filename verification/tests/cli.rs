use nucleus::cli::{backends_for, run_failed, start_failed, BackendArg, RunEvent};
use nucleus::hil::{BackendKind, HilError};
use nucleus::cli::{
    check_ok_line, conflict_line, conflicts_heading, route_failure_heading, select_tests, split_tests, status_icon,
    trace_clocks, trace_port,
};
use nucleus::compiler::config::Config;
use nucleus::compiler::plan::{CompiledTest, TestBody};
use nucleus::compiler::solver::{Conflict, Severity};
use nucleus::compiler::BackendSelect;
use nucleus::hil::TestStatus;

fn test(name: &str, scripted: bool) -> CompiledTest {
    CompiledTest {
        name: name.to_string(),
        body: if scripted {
            TestBody::Scripted { script: format!("{name}_script") }
        } else {
            TestBody::Declarative { assertion: "uart2 echoes \"x\"".to_string() }
        },
        timeout_ms: 1000,
        backend: BackendSelect::Both,
    }
}

#[test]
fn conflict_lines_carry_their_severity() {
    let c = Conflict::MissingPin { peripheral: "SPI1".to_string(), key: "mosi".to_string(), signal: "MOSI".to_string() };
    assert_eq!(conflict_line(&c), format!("  error: {}", c.to_string()));
    assert_eq!(c.severity(), Severity::Error);
}

#[test]
fn headings_pluralize() {
    assert_eq!(conflicts_heading("stm32.toml", 1), "stm32.toml: 1 conflict found:\n");
    assert_eq!(conflicts_heading("stm32.toml", 3), "stm32.toml: 3 conflicts found:\n");
    assert_eq!(route_failure_heading("a.toml", 2), "a.toml: could not route (2 conflicts):\n");
    assert_eq!(check_ok_line("stm32.toml", 2), "stm32.toml OK — 2 peripheral(s), no conflicts.");
}

#[test]
fn status_icons() {
    assert_eq!(status_icon(TestStatus::Passed), "PASS");
    assert_eq!(status_icon(TestStatus::Failed), "FAIL");
    assert_eq!(status_icon(TestStatus::Skipped), "SKIP");
}

#[test]
fn test_filter_keeps_the_named_test_or_fails() {
    let plan = vec![test("a", false), test("b", true), test("a", true)];
    let kept = select_tests(plan.clone(), Some("a")).unwrap();
    assert_eq!(kept.len(), 2);
    assert!(kept.iter().all(|t| t.name == "a"));
    assert_eq!(select_tests(plan.clone(), None).unwrap(), plan);
    assert_eq!(select_tests(plan, Some("zz")).unwrap_err(), "no test named \"zz\"");
}

#[test]
fn tests_split_into_scripted_and_declarative_in_order() {
    let plan = vec![test("a", false), test("b", true), test("c", false), test("d", true)];
    let (scripted, declarative) = split_tests(plan);
    assert_eq!(scripted.iter().map(|t| t.name.as_str()).collect::<Vec<_>>(), vec!["b", "d"]);
    assert_eq!(declarative.iter().map(|t| t.name.as_str()).collect::<Vec<_>>(), vec!["a", "c"]);
}

#[test]
fn trace_port_comes_after_the_last_colon() {
    assert_eq!(trace_port("127.0.0.1:3344"), 3344);
    assert_eq!(trace_port("localhost:4000"), 4000);
    assert_eq!(trace_port("[::1]:+5000"), 5000);
    assert_eq!(trace_port("host:99999"), 3344);
    assert_eq!(trace_port("host:"), 3344);
    assert_eq!(trace_port("8080"), 8080);
    assert_eq!(trace_port("host:80x"), 3344);
}

#[test]
fn trace_clocks_default_when_unset() {
    let mut c = Config::default();
    assert_eq!(trace_clocks(&c), (180_000_000, 2_000_000));
    c.device.clock_hz = Some(84_000_000);
    c.trace.swo_freq = Some(1_000_000);
    assert_eq!(trace_clocks(&c), (84_000_000, 1_000_000));
}

#[test]
fn test_runs_on_the_backends_the_filter_allows() {
    assert_eq!(backends_for(None), vec![BackendKind::Qemu, BackendKind::Hardware]);
    assert_eq!(backends_for(Some(BackendArg::Qemu)), vec![BackendKind::Qemu]);
    assert_eq!(backends_for(Some(BackendArg::Hardware)), vec![BackendKind::Hardware]);
}

#[test]
fn a_run_fails_on_a_failed_test_start_or_script_but_not_on_a_missing_tool() {
    let missing = start_failed(&HilError::ToolMissing("qemu-system-arm".to_string()));
    assert_eq!(missing, RunEvent::StartFailed { tool_missing: true });
    let broken = start_failed(&HilError::Protocol("bad reply".to_string()));
    assert_eq!(broken, RunEvent::StartFailed { tool_missing: false });
    assert!(!run_failed(&vec![]));
    assert!(!run_failed(&vec![missing, RunEvent::Outcome(TestStatus::Passed), RunEvent::Outcome(TestStatus::Skipped)]));
    assert!(run_failed(&vec![broken]));
    assert!(run_failed(&vec![RunEvent::Outcome(TestStatus::Passed), RunEvent::Outcome(TestStatus::Failed)]));
    assert!(run_failed(&vec![RunEvent::ScriptExited { success: false }]));
    assert!(!run_failed(&vec![RunEvent::ScriptExited { success: true }]));
    assert!(run_failed(&vec![RunEvent::ScriptLaunchFailed]));
}
