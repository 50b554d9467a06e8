use std::time::Duration;

use nucleus::compiler::check_config;
use nucleus::compiler::config::{Config, ConfigValue, Peripheral};
use nucleus::compiler::solver::AssertionSubject;
use nucleus::hil::observe::{contains_run, itm_event_outcome, parse_pin_or_fail, pin_state_step, rising_edges, uart_echo_outcome};
use nucleus::hil::preflight::gate;
use nucleus::hil::{outcome_from_error, HilError, ItmEvent, TestStatus};

fn event(data: &[u8]) -> Result<Option<ItmEvent>, HilError> {
    Ok(Some(ItmEvent { port: 0, data: data.to_vec() }))
}

fn within(ms: u64) -> String {
    format!("{:?}", Duration::from_millis(ms))
}

#[test]
fn pin_state_matching_level_passes() {
    let outcome = pin_state_step("t", "PA5", true, &within(20), Ok(true), false).expect("decided on the first poll");
    assert_eq!(outcome.status, TestStatus::Passed);
    assert_eq!(outcome.detail, "PA5 reached level true");
}

#[test]
fn pin_state_never_matching_fails_after_timeout() {
    assert!(pin_state_step("t", "PA5", true, &within(5), Ok(false), false).is_none());
    let outcome = pin_state_step("t", "PA5", true, &within(5), Ok(false), true).expect("window elapsed");
    assert_eq!(outcome.status, TestStatus::Failed);
    assert_eq!(outcome.detail, "PA5 never reached level true within 5ms");
}

#[test]
fn uart_echo_with_matching_payload_passes() {
    let outcome = uart_echo_outcome("t", "usart2", b"HELLO", &within(20), event(b"prefix:HELLO:suffix"));
    assert_eq!(outcome.status, TestStatus::Passed);
    assert_eq!(outcome.detail, "observed echoed payload on usart2");
}

#[test]
fn uart_echo_with_no_event_fails() {
    let outcome = uart_echo_outcome("t", "usart2", b"HELLO", &within(20), Ok(None));
    assert_eq!(outcome.status, TestStatus::Failed);
    assert_eq!(outcome.detail, "no ITM event observed for usart2 within 20ms");
}

#[test]
fn uart_echo_with_other_payload_fails() {
    let outcome = uart_echo_outcome("t", "usart2", b"HELLO", &within(20), event(b"HELL"));
    assert_eq!(outcome.status, TestStatus::Failed);
    assert_eq!(outcome.detail, "ITM event observed but did not contain expected payload for usart2");
}

#[test]
fn itm_event_matching_pattern_passes() {
    let outcome = itm_event_outcome("t", "complete", &within(20), event(b"boot complete"));
    assert_eq!(outcome.status, TestStatus::Passed);
    assert_eq!(outcome.detail, "ITM event matched pattern \"complete\"");
}

#[test]
fn itm_event_non_matching_pattern_fails() {
    let outcome = itm_event_outcome("t", "complete", &within(20), event(b"boot failed"));
    assert_eq!(outcome.status, TestStatus::Failed);
}

#[test]
fn itm_event_timeout_with_no_event_fails() {
    let outcome = itm_event_outcome("t", "complete", &within(20), Ok(None));
    assert_eq!(outcome.status, TestStatus::Failed);
    assert_eq!(outcome.detail, "no ITM event matching \"complete\" observed within 20ms");
}

#[test]
fn not_observable_error_is_skipped_not_failed() {
    let err = HilError::NotObservable { peripheral: "GPIOA".to_string() };
    let outcome = pin_state_step("t", "PA5", true, &within(5), Err(err), false).expect("an error decides");
    assert_eq!(outcome.status, TestStatus::Skipped);
}

#[test]
fn protocol_error_is_failed_not_skipped() {
    let outcome = outcome_from_error("t", HilError::Protocol("truncated reply".to_string()));
    assert_eq!(outcome.status, TestStatus::Failed);
    assert_eq!(outcome.detail, "protocol error: truncated reply");
}

#[test]
fn malformed_pin_never_panics_and_fails_cleanly() {
    for pin in ["not-a-pin", "PZZ99"] {
        let outcome = parse_pin_or_fail("t", pin).expect_err("not a pin");
        assert_eq!(outcome.status, TestStatus::Failed);
        assert!(outcome.detail.contains("internal error"));
    }
    assert!(parse_pin_or_fail("t", "PA5").is_ok());
}

#[test]
fn empty_pattern_always_occurs() {
    assert!(contains_run(&vec![], b""));
    assert!(contains_run(&b"abc".to_vec(), b"bc"));
    assert!(!contains_run(&b"abc".to_vec(), b"abcd"));
    assert!(!contains_run(&b"abc".to_vec(), b"ac"));
}

#[test]
fn rising_edges_count_low_to_high_transitions() {
    let ms = Duration::from_millis;
    let readings = vec![(ms(0), false), (ms(1), true), (ms(2), false), (ms(3), true), (ms(4), true), (ms(5), false)];
    assert_eq!(rising_edges(&readings), 2);
    assert_eq!(rising_edges(&vec![]), 0);
    assert_eq!(rising_edges(&vec![(ms(0), true)]), 0);
}

fn table(entries: &[(&str, &str)]) -> Peripheral {
    let mut p = Peripheral::new();
    for (k, v) in entries {
        p.0.push((k.to_string(), ConfigValue::String(v.to_string())));
    }
    p
}

fn report_for(peripherals: Vec<(&str, Peripheral)>) -> nucleus::compiler::CheckReport {
    let mut c = Config::default();
    let mut ps: Vec<(String, Peripheral)> = peripherals.into_iter().map(|(k, v)| (k.to_string(), v)).collect();
    ps.sort_by(|a, b| a.0.cmp(&b.0));
    c.peripherals = ps;
    let parsed: Vec<Result<AssertionSubject, String>> = Vec::new();
    check_config(c, &parsed)
}

#[test]
fn clean_config_passes() {
    let report = report_for(vec![("spi1", table(&[("mosi", "PA7"), ("miso", "PA6"), ("sck", "PA5")]))]);
    assert!(gate(&report).is_ok());
}

#[test]
fn conflicting_config_is_rejected() {
    let report = report_for(vec![
        ("spi1", table(&[("mosi", "PA7"), ("miso", "PA6"), ("sck", "PA5")])),
        ("tim2", table(&[("channel1", "PA5")])),
    ]);
    assert!(!report.is_ok());
    match gate(&report) {
        Err(HilError::Preflight(conflicts)) => assert!(!conflicts.is_empty()),
        other => panic!("expected Preflight rejection, got {other:?}"),
    }
}

#[test]
fn empty_config_passes() {
    let report = report_for(vec![]);
    assert!(gate(&report).is_ok());
}
