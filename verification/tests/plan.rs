use nucleus::compiler::config::{Config, ConfigValue, Peripheral, TestCase};
use nucleus::compiler::plan::{test_plan, CompiledTest, TestBody};
use nucleus::compiler::solver::{AssertionSubject, Conflict, Severity};
use nucleus::compiler::BackendSelect;

fn test_case(name: &str, assertion: &str) -> TestCase {
    TestCase {
        name: name.to_string(),
        assertion: assertion.to_string(),
        timeout_ms: 1000,
        backend: None,
        kind: None,
        script: None,
    }
}

/// What parsing "pin PA5 is high within 10ms" yields.
fn pa5() -> Result<AssertionSubject, String> {
    Ok(AssertionSubject::Pin("PA5".to_string()))
}

fn plan(config: &Config, parsed: Vec<Result<AssertionSubject, String>>) -> Result<Vec<CompiledTest>, Vec<Conflict>> {
    test_plan(config, &parsed)
}

fn with_tests(family: &str, tests: Vec<TestCase>) -> Config {
    let mut c = Config::default();
    c.device.family = family.to_string();
    c.test = tests;
    c
}

#[test]
fn test_plan_returns_one_compiled_test_for_a_valid_block() {
    let c = with_tests("STM32F446RE", vec![test_case("t1", "pin PA5 is high within 10ms")]);
    let p = plan(&c, vec![pa5()]).unwrap();
    assert_eq!(p.len(), 1);
    assert_eq!(p[0].name, "t1");
    assert_eq!(p[0].body, TestBody::Declarative { assertion: "pin PA5 is high within 10ms".to_string() });
}

#[test]
fn test_plan_reports_invalid_test_for_garbage_assertion() {
    let c = with_tests("", vec![test_case("bad", "this is not an assertion at all")]);
    let conflicts = plan(&c, vec![Err("unrecognized assertion".to_string())]).unwrap_err();
    assert!(conflicts.iter().any(|c| matches!(c, Conflict::InvalidTest { .. })), "got {conflicts:?}");
}

#[test]
fn test_plan_falls_back_to_f446_db_for_unknown_family() {
    let c = with_tests("STM32H750", vec![test_case("t1", "pin PA5 is high within 10ms")]);
    let p = plan(&c, vec![pa5()]).unwrap();
    assert_eq!(p.len(), 1);
}

fn backend_of(value: Option<&str>) -> BackendSelect {
    let mut t = test_case("t1", "pin PA5 is high within 10ms");
    t.backend = value.map(|v| v.to_string());
    let c = with_tests("", vec![t]);
    plan(&c, vec![pa5()]).unwrap()[0].backend
}

#[test]
fn test_plan_maps_backend_none_to_both() {
    assert_eq!(backend_of(None), BackendSelect::Both);
}

#[test]
fn test_plan_maps_backend_qemu() {
    assert_eq!(backend_of(Some("qemu")), BackendSelect::Qemu);
}

#[test]
fn test_plan_maps_backend_hardware() {
    assert_eq!(backend_of(Some("hardware")), BackendSelect::Hardware);
}

#[test]
fn test_plan_maps_backend_both_explicit() {
    assert_eq!(backend_of(Some("both")), BackendSelect::Both);
}

#[test]
fn test_plan_converts_timeout_ms_to_duration() {
    let mut t = test_case("t1", "pin PA5 is high within 10ms");
    t.timeout_ms = 250;
    let c = with_tests("", vec![t]);
    let p = plan(&c, vec![pa5()]).unwrap();
    assert_eq!(std::time::Duration::from_millis(p[0].timeout_ms), std::time::Duration::from_millis(250));
}

#[test]
fn test_plan_fails_on_unrelated_conflict_even_with_valid_test() {
    let mut c = with_tests("", vec![test_case("t1", "pin PA5 is high within 10ms")]);
    let mut spi = Peripheral::new();
    for (k, v) in [("mosi", "PA7"), ("miso", "PA6"), ("sck", "PA5")] {
        spi.0.push((k.to_string(), ConfigValue::String(v.to_string())));
    }
    let mut tim = Peripheral::new();
    tim.0.push(("channel1".to_string(), ConfigValue::String("PA5".to_string())));
    c.peripherals = vec![("spi1".to_string(), spi), ("tim2".to_string(), tim)];
    let conflicts = plan(&c, vec![pa5()]).unwrap_err();
    assert!(!conflicts.iter().any(|c| matches!(c, Conflict::InvalidTest { .. })));
    assert!(conflicts.iter().any(|c| c.severity() == Severity::Error));
}

fn scripted(name: &str, script: Option<&str>) -> TestCase {
    let mut t = test_case(name, "");
    t.kind = Some("scripted".to_string());
    t.script = script.map(|s| s.to_string());
    t
}

#[test]
fn scripted_test_compiles_to_scripted_body() {
    let mut t = scripted("uart_loopback", Some("uart_loopback"));
    t.backend = Some("both".to_string());
    let c = with_tests("", vec![t]);
    let p = plan(&c, vec![Err("scripted".to_string())]).unwrap();
    assert_eq!(p.len(), 1);
    assert_eq!(p[0].name, "uart_loopback");
    assert!(matches!(&p[0].body, TestBody::Scripted { script } if script == "uart_loopback"));
}

#[test]
fn scripted_test_without_script_is_invalid() {
    let c = with_tests("", vec![scripted("bad", None)]);
    let conflicts = plan(&c, vec![Err("scripted".to_string())]).unwrap_err();
    assert!(conflicts.iter().any(|c| matches!(c, Conflict::InvalidTest { .. })));
}

#[test]
fn declarative_test_with_script_is_invalid() {
    let mut t = test_case("bad", "pin PA5 is high within 10ms");
    t.script = Some("nope".to_string());
    let c = with_tests("", vec![t]);
    let conflicts = plan(&c, vec![pa5()]).unwrap_err();
    assert!(conflicts.iter().any(|c| matches!(c, Conflict::InvalidTest { .. })));
}

#[test]
fn compiled_test_exposes_only_a_declarative_assertion() {
    let c = with_tests("STM32F446RE", vec![test_case("t1", "pin PA5 is high within 10ms")]);
    let p = plan(&c, vec![pa5()]).unwrap();
    assert_eq!(p[0].assertion(), Some("pin PA5 is high within 10ms"));
    let s = with_tests("", vec![scripted("uart_loopback", Some("uart_loopback"))]);
    let q = plan(&s, vec![Err("scripted".to_string())]).unwrap();
    assert_eq!(q[0].assertion(), None);
}
