use nucleus::compiler::assertion::{
    number_error, parse_assertion, pending, settle, subject_of, AssertionSyntax, NumberCheck, NumberField,
    NumberText,
};
use nucleus::compiler::solver::AssertionSubject;

/// Reading a number text as a non-negative float, as callers do.
fn check(text: &str) -> NumberCheck {
    match text.parse::<f64>() {
        Err(_) => NumberCheck::NotNumeric,
        Ok(v) if !v.is_finite() || v < 0.0 => NumberCheck::OutOfRange,
        Ok(_) => NumberCheck::Fine,
    }
}

/// The grammar, then every number text checked in order.
fn parse(s: &str) -> Result<AssertionSyntax, String> {
    let syntax = parse_assertion(s);
    let checks: Vec<NumberCheck> = pending(&syntax).iter().map(|n| check(&n.text)).collect();
    settle(syntax, &checks)
}

fn num(text: &str) -> f64 {
    text.parse::<f64>().unwrap()
}

#[test]
fn parses_pin_toggles() {
    match parse("pin PA5 toggles at 1Hz ±5%").unwrap() {
        AssertionSyntax::PinToggles { pin, hz, tolerance_pct } => {
            assert_eq!(pin, "PA5");
            assert_eq!(num(&hz), 1.0);
            assert_eq!(num(&tolerance_pct), 5.0);
        }
        other => panic!("got {other:?}"),
    }
}

#[test]
fn parses_pin_toggles_with_ascii_tolerance_prefix() {
    match parse("pin PA5 toggles at 1Hz +-5%").unwrap() {
        AssertionSyntax::PinToggles { pin, hz, tolerance_pct } => {
            assert_eq!(pin, "PA5");
            assert_eq!(num(&hz), 1.0);
            assert_eq!(num(&tolerance_pct), 5.0);
        }
        other => panic!("got {other:?}"),
    }
}

#[test]
fn parses_pin_state_high() {
    let got = parse("pin PA5 is high within 10ms").unwrap();
    assert_eq!(
        got,
        AssertionSyntax::PinState { pin: "PA5".to_string(), level: true, within_ms: "10".to_string() }
    );
}

#[test]
fn parses_pin_state_low() {
    let got = parse("pin PA5 is low within 25ms").unwrap();
    assert_eq!(
        got,
        AssertionSyntax::PinState { pin: "PA5".to_string(), level: false, within_ms: "25".to_string() }
    );
}

#[test]
fn parses_uart_echo_double_quoted() {
    let got = parse(r#"UART2 echoes "ping" within 10ms"#).unwrap();
    assert_eq!(
        got,
        AssertionSyntax::UartEcho {
            instance: "UART2".to_string(),
            payload: b"ping".to_vec(),
            within_ms: "10".to_string(),
        }
    );
}

#[test]
fn parses_uart_echo_single_quoted() {
    let got = parse("UART2 echoes 'ping' within 10ms").unwrap();
    assert_eq!(
        got,
        AssertionSyntax::UartEcho {
            instance: "UART2".to_string(),
            payload: b"ping".to_vec(),
            within_ms: "10".to_string(),
        }
    );
}

#[test]
fn parses_trace_event() {
    let got = parse(r#"trace event "boot_done" within 50ms"#).unwrap();
    assert_eq!(
        got,
        AssertionSyntax::ItmEvent { pattern: "boot_done".to_string(), within_ms: "50".to_string() }
    );
}

#[test]
fn rejects_unknown_verb() {
    let err = parse("frobnicate PA5").unwrap_err();
    assert!(!err.is_empty());
}

#[test]
fn rejects_missing_hz_unit() {
    let err = parse("pin PA5 toggles at 1 ±5%").unwrap_err();
    assert!(err.contains("Hz"), "got {err:?}");
}

#[test]
fn rejects_missing_percent_unit() {
    let err = parse("pin PA5 toggles at 1Hz ±5").unwrap_err();
    assert!(err.contains('%'), "got {err:?}");
}

#[test]
fn rejects_missing_ms_unit() {
    let err = parse("pin PA5 is high within 10").unwrap_err();
    assert!(err.contains("ms"), "got {err:?}");
}

#[test]
fn rejects_unterminated_quote() {
    let err = parse(r#"UART2 echoes "ping within 10ms"#).unwrap_err();
    assert!(err.contains("unterminated"), "got {err:?}");
}

#[test]
fn rejects_negative_duration() {
    let err = parse("pin PA5 is high within -10ms").unwrap_err();
    assert!(err.contains("non-negative"), "got {err:?}");
}

#[test]
fn rejects_garbage_input() {
    let err = parse("this is not an assertion at all").unwrap_err();
    assert!(!err.is_empty());
}

#[test]
fn rejects_empty_string() {
    let err = parse("").unwrap_err();
    assert!(!err.is_empty());
}

#[test]
fn syntax_errors_are_worded_exactly() {
    let msg = |s: &str| parse_assertion(s).unwrap_err().message;
    assert_eq!(msg("   \t "), "empty assertion string");
    assert_eq!(msg("pin"), "expected a pin name after 'pin'");
    assert_eq!(msg("pin PA5"), "expected 'toggles' or 'is' after pin name");
    assert_eq!(msg("pin PA5 blinks"), "unknown verb \"blinks\" after pin name (expected 'toggles' or 'is')");
    assert_eq!(msg("pin PA5 toggles"), "expected 'at' after 'toggles'");
    assert_eq!(msg("pin PA5 toggles near 1Hz"), "expected 'at' after 'toggles', got \"near\"");
    assert_eq!(msg("pin PA5 toggles at 1 ±5%"), "expected frequency to end in 'Hz', got \"1\"");
    assert_eq!(msg("pin PA5 is"), "expected 'high' or 'low' after 'is'");
    assert_eq!(msg("pin PA5 is up"), "expected 'high' or 'low', got \"up\"");
    assert_eq!(msg("pin PA5 is high"), "expected 'within' clause");
    assert_eq!(msg("pin PA5 is high by 10ms"), "expected 'within', got \"by\"");
    assert_eq!(msg("pin PA5 is high within"), "expected a duration like '10ms' after 'within'");
    assert_eq!(msg("trace"), "expected 'event' after 'trace'");
    assert_eq!(msg("trace thing"), "expected 'event' after 'trace', got \"thing\"");
    assert_eq!(msg("trace event"), "expected a quoted string");
    assert_eq!(msg("trace event boot"), "expected a quoted string starting with '\"' or ''', got \"boot\"");
    assert_eq!(
        msg("USART2"),
        "unknown leading subject \"USART2\" (expected 'pin', 'trace', or a peripheral name followed by 'echoes')"
    );
    assert_eq!(msg("USART2 sends"), "unknown verb \"sends\" (expected 'echoes' after peripheral name \"USART2\")");
}

#[test]
fn quoted_text_is_read_from_the_words_joined_by_single_spaces() {
    let got = parse_assertion("USART2  echoes  \"a   b\"\twithin 10ms").unwrap();
    assert_eq!(
        got,
        AssertionSyntax::UartEcho {
            instance: "USART2".to_string(),
            payload: b"a b".to_vec(),
            within_ms: "10".to_string(),
        }
    );
}

#[test]
fn trailing_words_are_refused_with_the_numbers_read_so_far() {
    let e = parse_assertion("pin PA5 toggles at 2Hz 5% extra").unwrap_err();
    assert_eq!(e.message, "unexpected trailing tokens after tolerance");
    assert_eq!(
        e.numbers,
        vec![
            NumberText { field: NumberField::Frequency, text: "2".to_string() },
            NumberText { field: NumberField::Tolerance, text: "5".to_string() },
        ]
    );
    let e = parse_assertion("trace event 'x' within 5ms more").unwrap_err();
    assert_eq!(e.message, "unexpected trailing tokens after duration");
}

#[test]
fn a_bad_number_read_first_is_reported_first() {
    let err = parse("pin PA5 toggles at xHz ±5").unwrap_err();
    assert_eq!(err, "expected a numeric frequency, got \"x\"");
    let err = parse("pin PA5 toggles at 1Hz ±-2%").unwrap_err();
    assert_eq!(err, "tolerance must be a non-negative number, got \"-2\"");
}

#[test]
fn number_errors_name_their_field() {
    let n = NumberText { field: NumberField::Duration, text: "abc".to_string() };
    assert_eq!(number_error(&n, NumberCheck::NotNumeric).unwrap(), "expected a numeric duration, got \"abc\"");
    assert_eq!(number_error(&n, NumberCheck::Fine), None);
}

#[test]
fn subjects_name_the_pin_or_instance() {
    let pin = parse_assertion("pin PC13 is low within 5ms").unwrap();
    assert_eq!(subject_of(&pin), AssertionSubject::Pin("PC13".to_string()));
    let echo = parse_assertion("USART1 echoes 'x' within 5ms").unwrap();
    assert_eq!(subject_of(&echo), AssertionSubject::Uart("USART1".to_string()));
    let trace = parse_assertion("trace event 'x' within 5ms").unwrap();
    assert_eq!(subject_of(&trace), AssertionSubject::Trace);
}
