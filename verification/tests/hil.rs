use std::time::Duration;

use nucleus::cli::{scripted_backend_labels, BackendArg};
use nucleus::compiler::solver::Conflict;
use nucleus::compiler::BackendSelect;
use nucleus::db::Port;
use nucleus::hil::{
    backend_selected, gpio_base, idr_address, not_selected, outcome_from_error, start_failure, BackendKind,
    HilError, ItmEvent, RunResult, RunStatus, RunTiming, TestStatus,
};

#[test]
fn bases_are_0x400_apart_starting_at_gpioa() {
    let ports = [Port::A, Port::B, Port::C, Port::D, Port::E, Port::F, Port::G, Port::H];
    assert_eq!(gpio_base(Port::A), 0x4002_0000);
    for (a, b) in ports.iter().zip(ports.iter().skip(1)) {
        assert_eq!(gpio_base(*b) - gpio_base(*a), 0x400);
    }
}

#[test]
fn idr_address_is_base_plus_0x10() {
    assert_eq!(idr_address(Port::A), 0x4002_0010);
    assert_eq!(idr_address(Port::H), gpio_base(Port::H) + 0x10);
}

#[test]
fn run_result_constructs() {
    let result = RunResult {
        backend: BackendKind::Qemu,
        status: RunStatus::Completed,
        log: vec!["boot ok".to_string()],
        traces: vec![ItmEvent { port: 0, data: b"hi".to_vec() }],
        timing: RunTiming { total: Duration::from_millis(10) },
    };
    assert_eq!(result.backend, BackendKind::Qemu);
    assert_eq!(result.status, RunStatus::Completed);
}

#[test]
fn hil_error_displays_without_panicking() {
    let errs = vec![
        HilError::Preflight(vec![]),
        HilError::ToolMissing("qemu-system-arm".into()),
        HilError::Protocol("truncated reply".into()),
        HilError::NotObservable { peripheral: "SAI1".into() },
    ];
    for err in errs {
        let _ = err.to_string();
    }
}

#[test]
fn hil_error_messages() {
    let conflict = Conflict::Unroutable { node: "X".into(), reason: "y".into() };
    assert_eq!(
        HilError::Preflight(vec![conflict.clone(), conflict]).to_string(),
        "config has 2 unresolved conflict(s)"
    );
    assert_eq!(
        HilError::ToolMissing("st-flash".into()).to_string(),
        "required tool not found: st-flash"
    );
    let io = HilError::Io(std::io::Error::new(std::io::ErrorKind::Other, "boom"));
    assert_eq!(io.to_string(), "I/O error: boom");
}

#[test]
fn not_observable_is_a_skip_other_errors_fail() {
    let o = outcome_from_error("t", HilError::NotObservable { peripheral: "SAI1".into() });
    assert_eq!(o.status, TestStatus::Skipped);
    assert_eq!(o.detail, "peripheral not observable on this backend: SAI1");
    let o = outcome_from_error("t", HilError::Protocol("bad".into()));
    assert_eq!(o.status, TestStatus::Failed);
    assert_eq!(o.detail, "protocol error: bad");
    assert_eq!(not_selected("t").status, TestStatus::Skipped);
}

#[test]
fn start_failure_is_failed_with_message() {
    let r = start_failure(
        BackendKind::Hardware,
        &HilError::ToolMissing("st-flash".into()),
        RunTiming { total: Duration::ZERO },
    );
    assert_eq!(r.status, RunStatus::Failed { error: "required tool not found: st-flash".into() });
    assert!(r.log.is_empty() && r.traces.is_empty());
}

#[test]
fn backend_selection() {
    assert!(backend_selected(BackendSelect::Both, BackendKind::Qemu));
    assert!(backend_selected(BackendSelect::Qemu, BackendKind::Qemu));
    assert!(!backend_selected(BackendSelect::Qemu, BackendKind::Hardware));
    assert!(backend_selected(BackendSelect::Hardware, BackendKind::Hardware));
}

#[test]
fn no_filter_and_both_runs_qemu_then_hardware() {
    assert_eq!(scripted_backend_labels(None, BackendSelect::Both), vec!["qemu", "hardware"]);
}

#[test]
fn hardware_filter_with_qemu_only_test_skips() {
    assert_eq!(
        scripted_backend_labels(Some(BackendArg::Hardware), BackendSelect::Qemu),
        Vec::<&str>::new()
    );
}

#[test]
fn qemu_filter_with_both_test_narrows_to_qemu() {
    assert_eq!(scripted_backend_labels(Some(BackendArg::Qemu), BackendSelect::Both), vec!["qemu"]);
}

#[test]
fn no_filter_with_hardware_only_test_runs_hardware() {
    assert_eq!(scripted_backend_labels(None, BackendSelect::Hardware), vec!["hardware"]);
}
