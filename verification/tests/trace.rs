use nucleus::compiler::config::{Trace, TraceVariable};
use nucleus::itm::Packet;
use nucleus::trace::{TraceEvent, TraceValue, Translator, VarType, VariableMap};

fn map() -> VariableMap {
    let mut m = VariableMap::new();
    m.insert(1, "temperature", VarType::F32);
    m.insert(2, "duty", VarType::U16);
    m.insert(3, "loop_us", VarType::U32);
    m
}

#[test]
fn port0_bytes_become_log_lines() {
    let mut t = Translator::new(map());
    let mut events = Vec::new();
    for ch in b"hi\nbye\n" {
        events.extend(t.translate(&Packet::Instrumentation { port: 0, data: vec![*ch] }));
    }
    assert_eq!(
        events,
        vec![TraceEvent::Log { message: "hi".into() }, TraceEvent::Log { message: "bye".into() }]
    );
}

#[test]
fn partial_log_line_waits_for_newline() {
    let mut t = Translator::new(map());
    assert!(t.translate(&Packet::Instrumentation { port: 0, data: b"par".to_vec() }).is_empty());
    let done = t.translate(&Packet::Instrumentation { port: 0, data: b"tial\n".to_vec() });
    assert_eq!(done, vec![TraceEvent::Log { message: "partial".into() }]);
}

#[test]
fn carriage_returns_are_dropped_and_flush_emits_the_rest() {
    let mut t = Translator::new(map());
    let ev = t.translate(&Packet::Instrumentation { port: 0, data: b"a\r\nb".to_vec() });
    assert_eq!(ev, vec![TraceEvent::Log { message: "a".into() }]);
    assert_eq!(t.flush(), vec![TraceEvent::Log { message: "b".into() }]);
    assert!(t.flush().is_empty());
}

#[test]
fn invalid_utf8_is_replaced() {
    let mut t = Translator::new(map());
    let ev = t.translate(&Packet::Instrumentation { port: 0, data: vec![b'o', 0xff, b'k', b'\n'] });
    assert_eq!(ev, vec![TraceEvent::Log { message: "o\u{fffd}k".into() }]);
}

#[test]
fn f32_variable_decodes_to_its_bits() {
    let mut t = Translator::new(map());
    let events = t.translate(&Packet::Instrumentation { port: 1, data: 3.5f32.to_le_bytes().to_vec() });
    assert_eq!(
        events,
        vec![TraceEvent::Variable {
            port: 1,
            name: "temperature".into(),
            ty: "f32",
            value: TraceValue::F32Bits(3.5f32.to_bits()),
        }]
    );
}

#[test]
fn u16_and_u32_variables_decode() {
    let mut t = Translator::new(map());
    let duty = t.translate(&Packet::Instrumentation { port: 2, data: 1000u16.to_le_bytes().to_vec() });
    assert_eq!(
        duty[0],
        TraceEvent::Variable { port: 2, name: "duty".into(), ty: "u16", value: TraceValue::U16(1000) }
    );
    let lt = t.translate(&Packet::Instrumentation { port: 3, data: 70_000u32.to_le_bytes().to_vec() });
    assert_eq!(
        lt[0],
        TraceEvent::Variable { port: 3, name: "loop_us".into(), ty: "u32", value: TraceValue::U32(70_000) }
    );
}

#[test]
fn short_and_long_payloads_are_padded_or_truncated() {
    assert_eq!(VarType::U32.decode(&[1]), TraceValue::U32(1));
    assert_eq!(VarType::U16.decode(&[1, 2, 3, 4]), TraceValue::U16(0x0201));
    assert_eq!(VarType::I32.decode(&[0xff, 0xff, 0xff, 0xff]), TraceValue::I32(-1));
    assert_eq!(VarType::U32.decode(&[]), TraceValue::U32(0));
}

#[test]
fn unmapped_port_is_ignored() {
    let mut t = Translator::new(map());
    assert!(t.translate(&Packet::Instrumentation { port: 5, data: vec![1, 2, 3, 4] }).is_empty());
}

#[test]
fn overflow_is_reported() {
    let mut t = Translator::new(map());
    let events = t.translate(&Packet::Overflow);
    assert_eq!(events, vec![TraceEvent::Overflow]);
    assert!(t.translate(&Packet::Synchronization).is_empty());
}

#[test]
fn var_types_parse_by_name() {
    assert_eq!(VarType::parse("f32"), Some(VarType::F32));
    assert_eq!(VarType::parse("i32"), Some(VarType::I32));
    assert_eq!(VarType::parse("u8"), None);
    assert_eq!(VarType::U16.name(), "u16");
}

#[test]
fn from_config_skips_unknown_types_and_later_entries_win() {
    let trace = Trace {
        enabled: true,
        swo_freq: None,
        variables: vec![
            TraceVariable { name: "a".into(), port: 1, ty: "u32".into() },
            TraceVariable { name: "b".into(), port: 2, ty: "double".into() },
            TraceVariable { name: "c".into(), port: 1, ty: "i32".into() },
        ],
    };
    let m = VariableMap::from_config(&trace);
    let v = m.get(1).unwrap();
    assert_eq!((v.name.as_str(), v.ty), ("c", VarType::I32));
    assert!(m.get(2).is_none());
}

#[test]
fn openocd_commands_route_trace_to_the_port() {
    let cmds = nucleus::trace::openocd_commands(3344, 180_000_000, 2_000_000);
    assert_eq!(cmds, vec!["tpiu config internal :3344 uart off 180000000 2000000".to_string(), "itm ports on".to_string()]);
}

#[test]
fn pipeline_output_does_not_depend_on_chunking() {
    let stream = [0x01, b'h', 0x01, b'i', 0x01, b'\n', 0x09, 7, 0x01, b'x'];
    let mut whole = nucleus::trace::TracePipeline::new(map());
    let mut all = whole.ingest(&stream);
    all.extend(whole.flush());
    let mut split = nucleus::trace::TracePipeline::new(map());
    let mut parts = split.ingest(&stream[..3]);
    parts.extend(split.ingest(&stream[3..7]));
    parts.extend(split.ingest(&stream[7..]));
    parts.extend(split.flush());
    assert_eq!(all, parts);
    assert_eq!(all[0], TraceEvent::Log { message: "hi".to_string() });
    assert_eq!(all.last().unwrap(), &TraceEvent::Log { message: "x".to_string() });
}
