use nucleus::compiler::config::{Config, ConfigValue, Peripheral};
use nucleus::compiler::solver::{AssertionSubject, Conflict, Severity};
use nucleus::compiler::{check_config, database_for, CheckReport};

fn table(entries: &[(&str, ConfigValue)]) -> Peripheral {
    let mut p = Peripheral::new();
    for (k, v) in entries {
        p.0.push((k.to_string(), v.clone()));
    }
    p
}

fn s(v: &str) -> ConfigValue {
    ConfigValue::String(v.to_string())
}

fn check(family: &str, peripherals: Vec<(&str, Peripheral)>) -> CheckReport {
    let mut c = Config::default();
    c.device.family = family.to_string();
    let mut ps: Vec<(String, Peripheral)> = peripherals.into_iter().map(|(k, v)| (k.to_string(), v)).collect();
    ps.sort_by(|a, b| a.0.cmp(&b.0));
    c.peripherals = ps;
    let parsed: Vec<Result<AssertionSubject, String>> = Vec::new();
    check_config(c, &parsed)
}

fn collision() -> Vec<(&'static str, Peripheral)> {
    vec![
        ("spi1", table(&[("mosi", s("PA7")), ("miso", s("PA6")), ("sck", s("PA5"))])),
        ("tim2", table(&[("channel1", s("PA5"))])),
    ]
}

#[test]
fn check_reports_ok_for_clean_config() {
    let report = check("STM32F446RE", vec![("usart2", table(&[("tx", s("PA2")), ("rx", s("PA3"))]))]);
    assert!(report.is_ok());
}

#[test]
fn check_surfaces_conflicts() {
    let report = check("", collision());
    assert!(!report.is_ok());
}

#[test]
fn database_for_resolves_known_families() {
    assert!(database_for("STM32F446RE").is_ok());
    assert!(database_for("STM32F411RE").is_ok());
    assert!(database_for("").is_ok());
    assert!(database_for("STM32H750").is_err());
}

#[test]
fn check_family_resolves_db_for_f411re() {
    let report = check("STM32F411RE", vec![("uart4", table(&[("tx", s("PA0")), ("rx", s("PA1"))]))]);
    assert!(
        report.conflicts.iter().any(|c| matches!(
            c,
            Conflict::PeripheralUnavailable { peripheral, family } if peripheral == "UART4" && family == "STM32F411RE"
        )),
        "got {:?}",
        report.conflicts
    );
}

#[test]
fn is_ok_accepts_warnings_only() {
    let report = check(
        "STM32F446RE",
        vec![(
            "usart2",
            table(&[
                ("tx", s("PA2")),
                ("rx", s("PA3")),
                ("irq", ConfigValue::Boolean(true)),
                ("irq_priority", ConfigValue::Integer(2)),
                ("dma", ConfigValue::Boolean(true)),
                ("dma_priority", ConfigValue::Integer(5)),
            ]),
        )],
    );
    assert_eq!(report.conflicts.len(), 1);
    assert_eq!(report.conflicts[0].severity(), Severity::Warning);
    assert!(report.is_ok());
}

#[test]
fn is_ok_rejects_errors() {
    let report = check("", collision());
    assert!(!report.conflicts.is_empty());
    assert!(report.conflicts.iter().any(|c| c.severity() == Severity::Error));
    assert!(!report.is_ok());
}
