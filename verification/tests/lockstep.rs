use nucleus::hil::lockstep::{compare, decode, Checkpoint, Decoded, DivergenceReport, ObservationTrace};
use nucleus::hil::ItmEvent;
use nucleus::trace::{TraceValue, VarType, VariableMap};

fn event(port: u8, data: &[u8]) -> ItmEvent {
    ItmEvent { port, data: data.to_vec() }
}

fn checkpoint(port: u8, data: &[u8], decoded: Option<(&str, TraceValue, &str)>) -> Checkpoint {
    Checkpoint {
        itm_event: event(port, data),
        decoded: decoded.map(|(name, value, text)| Decoded { name: name.to_string(), value, text: text.to_string() }),
    }
}

#[test]
fn decode_finds_configured_variable() {
    let mut vars = VariableMap::new();
    vars.insert(1, "speed", VarType::U32);
    let decoded = decode(&vars, &event(1, &[42, 0, 0, 0]));
    assert_eq!(decoded, Some(("speed".to_string(), TraceValue::U32(42))));
}

#[test]
fn decode_returns_none_for_unconfigured_port() {
    let vars = VariableMap::new();
    let decoded = decode(&vars, &event(0, b"log line"));
    assert_eq!(decoded, None);
}

#[test]
fn identical_traces_agree() {
    let trace = ObservationTrace {
        checkpoints: vec![
            checkpoint(0, b"O", None),
            checkpoint(1, &[10, 0, 0, 0], Some(("speed", TraceValue::U32(10), "10"))),
        ],
    };
    let report = compare(&trace, &trace.clone());
    assert_eq!(report, DivergenceReport::Agreement { checkpoints_compared: 2 });
}

#[test]
fn differing_decoded_value_diverges_with_variable_name() {
    let sim = ObservationTrace {
        checkpoints: vec![
            checkpoint(0, b"O", None),
            checkpoint(1, &[10, 0, 0, 0], Some(("speed", TraceValue::U32(10), "10"))),
        ],
    };
    let silicon = ObservationTrace {
        checkpoints: vec![
            checkpoint(0, b"O", None),
            checkpoint(1, &[12, 0, 0, 0], Some(("speed", TraceValue::U32(12), "12"))),
        ],
    };
    let report = compare(&sim, &silicon);
    assert_eq!(
        report,
        DivergenceReport::Diverged {
            first_checkpoint: 1,
            observable: "speed".to_string(),
            sim_value: "10".to_string(),
            silicon_value: "12".to_string(),
        }
    );
}

#[test]
fn differing_raw_itm_event_diverges_as_itm_event() {
    let sim = ObservationTrace { checkpoints: vec![checkpoint(0, b"O", None)] };
    let silicon = ObservationTrace { checkpoints: vec![checkpoint(0, b"K", None)] };
    let report = compare(&sim, &silicon);
    assert_eq!(
        report,
        DivergenceReport::Diverged {
            first_checkpoint: 0,
            observable: "itm_event".to_string(),
            sim_value: format!("{:?}", event(0, b"O")),
            silicon_value: format!("{:?}", event(0, b"K")),
        }
    );
}

#[test]
fn shorter_trace_diverges_at_its_length_with_no_event_marker() {
    let sim = ObservationTrace { checkpoints: vec![checkpoint(0, b"O", None), checkpoint(0, b"K", None)] };
    let silicon = ObservationTrace { checkpoints: vec![checkpoint(0, b"O", None)] };
    let report = compare(&sim, &silicon);
    assert_eq!(
        report,
        DivergenceReport::Diverged {
            first_checkpoint: 1,
            observable: "itm_event".to_string(),
            sim_value: format!("{:?}", event(0, b"K")),
            silicon_value: "<no event>".to_string(),
        }
    );
}

#[test]
fn numerically_equal_values_agree_across_types() {
    // As JSON numbers, a u16 5 and an i32 5 are the same value; -0.0 equals 0.0.
    let sim = ObservationTrace {
        checkpoints: vec![
            checkpoint(1, &[5, 0, 0, 0], Some(("x", TraceValue::U16(5), "5"))),
            checkpoint(2, &[0, 0, 0, 0x80], Some(("t", TraceValue::F32Bits(0x8000_0000), "-0.0"))),
        ],
    };
    let silicon = ObservationTrace {
        checkpoints: vec![
            checkpoint(1, &[5, 0, 0, 0], Some(("x", TraceValue::I32(5), "5"))),
            checkpoint(2, &[0, 0, 0, 0x80], Some(("t", TraceValue::F32Bits(0), "0.0"))),
        ],
    };
    assert_eq!(compare(&sim, &silicon), DivergenceReport::Agreement { checkpoints_compared: 2 });
}
