use nucleus::hil::session::{
    failure_note, instrumentation_events, qemu_register_address, run_status, word_bytes, word_from_bytes, TIM2_BASE,
    TIM_CNT_OFFSET,
};
use nucleus::hil::{HilError, ItmEvent, RunStatus};
use nucleus::itm::Packet;

#[test]
fn finish_reports_failed_not_completed_after_a_recorded_failure() {
    let failure = failure_note(&HilError::Protocol("target hung up mid-run".to_string()));
    let status = run_status(&None, &failure, true);
    assert!(matches!(status, RunStatus::Failed { .. }));
}

#[test]
fn record_failure_ignores_expected_not_observable_gaps() {
    let failure = failure_note(&HilError::NotObservable { peripheral: "GPIO".to_string() });
    let status = run_status(&None, &failure, true);
    assert_eq!(status, RunStatus::Completed);
}

#[test]
fn skip_reason_wins_and_unstarted_runs_are_skipped() {
    let status = run_status(&Some("qemu-system-arm not found on PATH".to_string()), &Some("x".to_string()), true);
    assert_eq!(status, RunStatus::Skipped { reason: "qemu-system-arm not found on PATH".to_string() });
    assert_eq!(run_status(&None, &None, false), RunStatus::Skipped { reason: "start() was never called".to_string() });
}

#[test]
fn only_tim2_is_observable_on_qemu() {
    assert_eq!(qemu_register_address("TIM2", TIM_CNT_OFFSET).unwrap(), TIM2_BASE + 0x24);
    assert!(matches!(
        qemu_register_address("USART2", 0),
        Err(HilError::NotObservable { peripheral }) if peripheral == "USART2"
    ));
}

#[test]
fn words_are_little_endian() {
    assert_eq!(word_from_bytes(&vec![0x78, 0x56, 0x34, 0x12]).unwrap(), 0x1234_5678);
    assert_eq!(word_bytes(0x1234_5678), vec![0x78, 0x56, 0x34, 0x12]);
    assert!(matches!(word_from_bytes(&vec![1, 2, 3]), Err(HilError::Protocol(m)) if m == "expected 4-byte read"));
}

#[test]
fn only_instrumentation_packets_become_events() {
    let packets = vec![
        Packet::Synchronization,
        Packet::Instrumentation { port: 0, data: b"hi".to_vec() },
        Packet::Overflow,
        Packet::Instrumentation { port: 3, data: vec![1, 2, 3, 4] },
    ];
    assert_eq!(
        instrumentation_events(&packets),
        vec![ItmEvent { port: 0, data: b"hi".to_vec() }, ItmEvent { port: 3, data: vec![1, 2, 3, 4] }]
    );
}
