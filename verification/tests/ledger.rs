use nucleus::ledger::trend::{point_for, VerificationReport, REPORT_SCHEMA, TREND_SCHEMA};
use nucleus::ledger::{compute_hash, Ledger, ResolveError, TestRecord, Verdict, Version, VersionInputs};

fn inputs<'a>(toml: &'a str, bin: &'a [u8]) -> VersionInputs<'a> {
    VersionInputs {
        stm32_toml: toml,
        resolved_config: toml,
        firmware_bin: bin,
        toolchain: "arm-none-eabi-gcc 13.2.0",
    }
}

fn rec(name: &str, backend: &str, status: &str) -> TestRecord {
    TestRecord {
        name: name.into(),
        backend: backend.into(),
        status: status.into(),
        detail: String::new(),
    }
}

fn version(hash: &str, ts: u64, verdict: Verdict, tests: Vec<TestRecord>) -> Version {
    Version {
        hash: hash.to_string(),
        timestamp: ts,
        family: "STM32F446RE".into(),
        toolchain: "gcc 14".into(),
        stm32_toml: String::new(),
        solved_config: None,
        verdict,
        tests,
    }
}

fn trec(name: &str, backend: &str, status: &str) -> TestRecord {
    TestRecord {
        name: name.into(),
        backend: backend.into(),
        status: status.into(),
        detail: format!("{name}/{backend}"),
    }
}

#[test]
fn hash_is_deterministic() {
    let a = compute_hash(&inputs("x", b"bin"));
    let b = compute_hash(&inputs("x", b"bin"));
    assert_eq!(a, b);
    assert_eq!(a.len(), 64); // sha-256 hex
}

#[test]
fn hash_changes_with_each_input() {
    let base = compute_hash(&inputs("toml", b"bin"));
    assert_ne!(base, compute_hash(&inputs("TOML", b"bin")));
    assert_ne!(base, compute_hash(&inputs("toml", b"BIN")));
    let mut diff_toolchain = inputs("toml", b"bin");
    diff_toolchain.toolchain = "gcc 14";
    assert_ne!(base, compute_hash(&diff_toolchain));
    let mut diff_resolved = inputs("toml", b"bin");
    diff_resolved.resolved_config = "resolved";
    assert_ne!(base, compute_hash(&diff_resolved));
}

#[test]
fn length_prefix_disambiguates_boundaries() {
    let mut left = inputs("ab", b"");
    left.resolved_config = "c";
    let mut right = inputs("a", b"");
    right.resolved_config = "bc";
    assert_ne!(compute_hash(&left), compute_hash(&right));
}

#[test]
fn hash_of_empty_inputs_is_sha256_of_zero_lengths() {
    // Four fields, each an 8-byte zero length and no bytes: SHA-256 of 32 zero bytes.
    let h = compute_hash(&VersionInputs {
        stm32_toml: "",
        resolved_config: "",
        firmware_bin: b"",
        toolchain: "",
    });
    assert_eq!(h, "66687aadf862bd776c8fc18b8e9f8e20089714856ee233b3902a591d0d5f2925");
}

#[test]
fn record_is_content_addressed_no_duplicates() {
    let mut ledger = Ledger::default();
    let (h1, new1) = ledger.record(&inputs("t", b"b"), "STM32F446RE", Verdict::Approved, 100);
    assert!(new1);
    let (h2, new2) = ledger.record(&inputs("t", b"b"), "STM32F446RE", Verdict::Approved, 200);
    assert!(!new2, "re-recording unchanged version must not duplicate");
    assert_eq!(h1, h2);
    assert_eq!(ledger.versions.len(), 1);
    // Timestamp of the original is preserved (append-only identity).
    assert_eq!(ledger.versions[0].timestamp, 100);
}

#[test]
fn changed_config_appends_new_version() {
    let mut ledger = Ledger::default();
    ledger.record(&inputs("a", b"b"), "STM32F446RE", Verdict::Approved, 1);
    ledger.record(&inputs("b", b"b"), "STM32F446RE", Verdict::Approved, 2);
    assert_eq!(ledger.versions.len(), 2);
}

#[test]
fn solved_config_only_stored_when_it_differs() {
    let mut ledger = Ledger::default();
    ledger.record(&inputs("same", b"b"), "STM32F446RE", Verdict::Approved, 1);
    assert_eq!(ledger.versions[0].solved_config, None);

    let routed = VersionInputs {
        stm32_toml: "intent",
        resolved_config: "routed",
        firmware_bin: b"b",
        toolchain: "tc",
    };
    ledger.record(&routed, "STM32F446RE", Verdict::Approved, 2);
    assert_eq!(ledger.versions[1].solved_config.as_deref(), Some("routed"));
}

#[test]
fn record_tests_replaces_same_name_backend() {
    let mut ledger = Ledger::default();
    let (hash, _) = ledger.record(&inputs("t", b"b"), "STM32F446RE", Verdict::Approved, 1);
    assert!(ledger.record_tests(
        &hash,
        vec![TestRecord {
            name: "echo".into(),
            backend: "qemu".into(),
            status: "fail".into(),
            detail: "no reply".into(),
        }]
    ));
    // Re-run: same (name, backend) now passes -> replace, not append.
    ledger.record_tests(
        &hash,
        vec![TestRecord {
            name: "echo".into(),
            backend: "qemu".into(),
            status: "pass".into(),
            detail: "ok".into(),
        }],
    );
    assert_eq!(ledger.versions[0].tests.len(), 1);
    assert_eq!(ledger.versions[0].tests[0].status, "pass");
}

#[test]
fn record_tests_appends_new_slots_in_order() {
    let mut ledger = Ledger::default();
    let (hash, _) = ledger.record(&inputs("t", b"b"), "STM32F446RE", Verdict::Approved, 1);
    assert!(ledger.record_tests(&hash, vec![rec("a", "qemu", "pass"), rec("a", "hardware", "fail")]));
    assert!(ledger.record_tests(&hash, vec![rec("b", "qemu", "pass"), rec("a", "hardware", "pass")]));
    let tests = &ledger.versions[0].tests;
    assert_eq!(tests.len(), 3);
    assert_eq!((tests[0].name.as_str(), tests[0].backend.as_str()), ("a", "qemu"));
    assert_eq!((tests[1].backend.as_str(), tests[1].status.as_str()), ("hardware", "pass"));
    assert_eq!(tests[2].name, "b");
    // The identity is untouched.
    assert_eq!(ledger.versions[0].hash, hash);
    assert_eq!(ledger.versions[0].timestamp, 1);
}

#[test]
fn record_tests_unknown_hash_is_false() {
    let mut ledger = Ledger::default();
    assert!(!ledger.record_tests("deadbeef", vec![]));
}

#[test]
fn find_resolves_short_hash_and_detects_ambiguity() {
    let mut ledger = Ledger::default();
    ledger.versions.push(Version {
        hash: "abc111".into(),
        timestamp: 0,
        family: "F4".into(),
        toolchain: "tc".into(),
        stm32_toml: String::new(),
        solved_config: None,
        verdict: Verdict::Approved,
        tests: vec![],
    });
    ledger.versions.push(Version {
        hash: "abc222".into(),
        timestamp: 0,
        family: "F4".into(),
        toolchain: "tc".into(),
        stm32_toml: String::new(),
        solved_config: None,
        verdict: Verdict::Approved,
        tests: vec![],
    });
    assert_eq!(ledger.find("abc111").unwrap().hash, "abc111");
    assert!(matches!(ledger.find("abc"), Err(ResolveError::Ambiguous(..))));
    assert!(matches!(ledger.find("zzz"), Err(ResolveError::NotFound(_))));
}

#[test]
fn resolve_error_messages() {
    let mut ledger = Ledger::default();
    ledger.versions.push(version(&"1".repeat(64), 0, Verdict::Approved, vec![]));
    ledger.versions.push(version(&format!("1{}", "2".repeat(63)), 0, Verdict::Approved, vec![]));
    let err = ledger.find("1").unwrap_err();
    assert_eq!(err, ResolveError::Ambiguous("1".into(), vec!["1111111".into(), "1222222".into()]));
    assert_eq!(err.to_string(), "\"1\" is ambiguous: matches 1111111, 1222222");
    assert_eq!(ledger.find("9").unwrap_err().to_string(), "no version matches \"9\"");
    assert_eq!(ledger.versions[0].short(), "1111111");
}

#[test]
fn test_summary_counts_pass_over_total_skips_excluded() {
    let version = Version {
        hash: "h".into(),
        timestamp: 0,
        family: "F4".into(),
        toolchain: "tc".into(),
        stm32_toml: String::new(),
        solved_config: None,
        verdict: Verdict::Approved,
        tests: vec![
            rec("a", "qemu", "pass"),
            rec("b", "qemu", "fail"),
            rec("c", "qemu", "pass"),
            rec("d", "hardware", "pass"),
            rec("e", "hardware", "skip"),
        ],
    };
    let summary = Ledger::test_summary(&version);
    assert_eq!(summary.get("qemu"), Some((2, 3)));
    assert_eq!(summary.get("hardware"), Some((1, 1))); // skip excluded from total
    // Ordered by backend name.
    assert_eq!(summary.entries[0].0, "hardware");
    assert_eq!(summary.entries[1].0, "qemu");
    assert_eq!(summary.len(), 2);
    assert_eq!(summary.get("renode"), None);
}

// --- trend and report ------------------------------------------------------

#[test]
fn trend_point_counts_per_backend_and_totals() {
    let v = version(
        &"a".repeat(64),
        10,
        Verdict::Approved,
        vec![
            trec("x", "qemu", "pass"),
            trec("y", "qemu", "fail"),
            trec("z", "hardware", "pass"),
            trec("w", "hardware", "skip"),
        ],
    );
    let p = point_for(&v);
    assert_eq!(p.pass, 2);
    assert_eq!(p.fail, 1);
    assert_eq!(p.skip, 1);
    // Ordered by backend name: hardware before qemu.
    assert_eq!(p.backends[0].backend, "hardware");
    assert_eq!(p.backends[0].pass, 1);
    assert_eq!(p.backends[0].skip, 1);
    assert_eq!(p.backends[0].total(), 1);
    assert_eq!(p.backends[1].backend, "qemu");
    assert_eq!(p.backends[1].total(), 2);
    assert!(p.approved);
    assert_eq!(p.conflicts, 0);
    assert_eq!(p.short, "aaaaaaa");
}

#[test]
fn trend_point_records_conflicts() {
    let v = version(
        &"b".repeat(64),
        1,
        Verdict::Conflicts(vec!["TIM2 too fast".into(), "PA5 clash".into()]),
        vec![],
    );
    let p = point_for(&v);
    assert!(!p.approved);
    assert_eq!(p.conflicts, 2);
}

#[test]
fn trend_last_n_keeps_most_recent_tail() {
    let mut ledger = Ledger::default();
    for i in 0..5 {
        ledger
            .versions
            .push(version(&format!("{i}{}", "0".repeat(63)), i, Verdict::Approved, vec![]));
    }
    let all = ledger.trend(None);
    assert_eq!(all.points.len(), 5);
    assert_eq!(all.schema, TREND_SCHEMA);

    let last2 = ledger.trend(Some(2));
    assert_eq!(last2.points.len(), 2);
    assert_eq!(last2.points[0].timestamp, 3);
    assert_eq!(last2.points[1].timestamp, 4);

    // last larger than len -> all.
    assert_eq!(ledger.trend(Some(99)).points.len(), 5);
}

#[test]
fn report_marks_proven_backends() {
    let v = version(
        &"d".repeat(64),
        5,
        Verdict::Approved,
        vec![
            trec("a", "qemu", "pass"),
            trec("b", "qemu", "pass"),
            trec("c", "hardware", "fail"), // hardware not proven
            trec("d", "skiponly", "skip"), // skip-only not proven
        ],
    );
    let report = VerificationReport::for_version(&v);
    assert_eq!(report.schema, REPORT_SCHEMA);
    assert!(report.static_check.approved);
    assert_eq!(report.proven_on, vec!["qemu".to_string()]);

    let qemu = report.backends.iter().find(|b| b.backend == "qemu").unwrap();
    assert_eq!((qemu.passed, qemu.failed, qemu.skipped), (2, 0, 0));
    assert_eq!(qemu.results.len(), 2);
    assert_eq!(qemu.results[1].detail, "b/qemu");
    let hw = report.backends.iter().find(|b| b.backend == "hardware").unwrap();
    assert_eq!((hw.passed, hw.failed, hw.skipped), (0, 1, 0));
}

#[test]
fn report_carries_conflicts_when_not_approved() {
    let v = version(&"e".repeat(64), 5, Verdict::Conflicts(vec!["bad clock".into()]), vec![]);
    let report = VerificationReport::for_version(&v);
    assert!(!report.static_check.approved);
    assert_eq!(report.static_check.conflicts, vec!["bad clock".to_string()]);
    assert!(report.proven_on.is_empty());
}

#[test]
fn report_is_deterministic() {
    let v = version(
        &"f".repeat(64),
        5,
        Verdict::Approved,
        vec![trec("a", "qemu", "pass"), trec("b", "hardware", "pass")],
    );
    assert_eq!(VerificationReport::for_version(&v), VerificationReport::for_version(&v));
}

#[test]
fn find_accepts_a_non_ascii_hash_when_the_match_is_unique() {
    let mut ledger = Ledger::default();
    ledger.versions.push(version("é-not-hex-but-fine", 0, Verdict::Approved, vec![]));
    ledger.versions.push(version("abc222", 0, Verdict::Approved, vec![]));
    assert_eq!(ledger.find("é").unwrap().hash, "é-not-hex-but-fine");
    assert!(matches!(ledger.find("zzz"), Err(ResolveError::NotFound(q)) if q == "zzz"));
}

#[test]
fn ambiguous_short_ids_are_the_first_seven_bytes() {
    let mut ledger = Ledger::default();
    ledger.versions.push(version("abcdef0123", 0, Verdict::Approved, vec![]));
    ledger.versions.push(version("abcdef9876", 0, Verdict::Approved, vec![]));
    match ledger.find("abc") {
        Err(ResolveError::Ambiguous(q, shorts)) => {
            assert_eq!(q, "abc");
            assert_eq!(shorts, vec!["abcdef0".to_string(), "abcdef9".to_string()]);
        }
        other => panic!("got {other:?}"),
    }
}
