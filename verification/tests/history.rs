use nucleus::history::{Run, TestEntry, TestHistory, SUMMARY_SCHEMA};

fn entry(name: &str, backend: &str, status: &str) -> TestEntry {
    TestEntry {
        name: name.into(),
        backend: backend.into(),
        status: status.into(),
        detail: format!("{name}/{backend}"),
    }
}

fn run(ts: u64, entries: Vec<TestEntry>) -> Run {
    Run { timestamp: ts, tests: entries }
}

#[test]
fn run_counts_pass_fail_skip() {
    let r = run(
        1,
        vec![
            entry("a", "qemu", "pass"),
            entry("b", "qemu", "fail"),
            entry("c", "hardware", "pass"),
            entry("d", "hardware", "skip"),
        ],
    );
    assert_eq!(r.passed(), 2);
    assert_eq!(r.failed(), 1);
    assert_eq!(r.skipped(), 1);
}

#[test]
fn unknown_status_counts_as_skipped() {
    let r = run(1, vec![entry("a", "qemu", "error"), entry("b", "qemu", "pass")]);
    assert_eq!((r.passed(), r.failed(), r.skipped()), (1, 0, 1));
}

#[test]
fn push_appends_each_run() {
    let mut h = TestHistory::default();
    h.push(run(1, vec![entry("a", "qemu", "pass")]));
    h.push(run(2, vec![entry("a", "qemu", "fail")]));
    assert_eq!(h.runs.len(), 2);
    assert_eq!(h.runs[0].timestamp, 1);
    assert_eq!(h.runs[1].tests[0].status, "fail");
}

#[test]
fn summary_counts_and_last_n() {
    let mut h = TestHistory::default();
    h.push(run(1, vec![entry("a", "qemu", "pass"), entry("b", "qemu", "fail")]));
    h.push(run(2, vec![entry("a", "qemu", "pass")]));
    h.push(run(3, vec![entry("a", "qemu", "skip")]));

    let all = h.summary(None);
    assert_eq!(all.schema, SUMMARY_SCHEMA);
    assert_eq!(all.runs.len(), 3);
    assert_eq!((all.runs[0].pass, all.runs[0].fail), (1, 1));

    let last2 = h.summary(Some(2));
    assert_eq!(last2.runs.len(), 2);
    assert_eq!(last2.runs[0].timestamp, 2);
    assert_eq!(last2.runs[1].skip, 1);
    assert_eq!(h.summary(Some(0)).runs.len(), 0);
}
