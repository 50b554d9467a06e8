use nucleus::compiler::config::{Config, ConfigValue, ExtiPin, Peripheral, TestCase};
use nucleus::compiler::model::Bus;
use nucleus::compiler::solver::{pin_conflicts, solve, test_conflicts, AssertionSubject, Conflict, Severity, SignalRef};
use nucleus::compiler::{dma, irq};
use nucleus::db::dma::DmaMap;
use nucleus::db::irq::IrqMap;
use nucleus::db::Database;

fn table(entries: &[(&str, ConfigValue)]) -> Peripheral {
    let mut p = Peripheral::new();
    for (k, v) in entries {
        p.0.push((k.to_string(), v.clone()));
    }
    p
}

fn s(v: &str) -> ConfigValue {
    ConfigValue::String(v.to_string())
}

fn config(peripherals: Vec<(&str, Peripheral)>) -> Config {
    let mut c = Config::default();
    let mut ps: Vec<(String, Peripheral)> = peripherals.into_iter().map(|(k, v)| (k.to_string(), v)).collect();
    ps.sort_by(|a, b| a.0.cmp(&b.0));
    c.peripherals = ps;
    c
}

fn solve_cfg(c: &Config) -> Vec<Conflict> {
    let parsed: Vec<Result<AssertionSubject, String>> =
        c.test.iter().map(|_| Err("unparsed".to_string())).collect();
    solve(c, &Database::f446re(), &parsed)
}

fn test_case(name: &str, assertion: &str) -> TestCase {
    TestCase {
        name: name.to_string(),
        assertion: assertion.to_string(),
        timeout_ms: 1000,
        backend: None,
        kind: None,
        script: None,
    }
}

#[test]
fn clean_config_has_no_conflicts() {
    let c = config(vec![
        ("usart2", table(&[("tx", s("PA2")), ("rx", s("PA3"))])),
        ("spi1", table(&[("mosi", s("PA7")), ("miso", s("PA6")), ("sck", s("PA5")), ("nss", s("PA4"))])),
        ("i2c1", table(&[("sda", s("PB9")), ("scl", s("PB8"))])),
    ]);
    let conflicts = solve_cfg(&c);
    assert_eq!(conflicts, vec![], "expected clean config, got {conflicts:?}");
}

#[test]
fn detects_pin_collision() {
    let c = config(vec![
        ("spi1", table(&[("mosi", s("PA7")), ("miso", s("PA6")), ("sck", s("PA5"))])),
        ("tim2", table(&[("channel1", s("PA5"))])),
    ]);
    let conflicts = solve_cfg(&c);
    let collisions: Vec<_> = conflicts.iter().filter(|c| matches!(c, Conflict::PinCollision { .. })).collect();
    assert_eq!(collisions.len(), 1, "got {conflicts:?}");
    if let Conflict::PinCollision { pin, users } = collisions[0] {
        assert_eq!(pin.to_string(), "PA5");
        assert_eq!(
            users,
            &vec![
                SignalRef { peripheral: "SPI1".into(), signal: "SCK".into() },
                SignalRef { peripheral: "TIM2".into(), signal: "CH1".into() },
            ]
        );
    }
    assert_eq!(collisions[0].to_string(), "pin collision on PA5: assigned to SPI1_SCK and TIM2_CH1");
}

#[test]
fn collisions_come_in_pin_order_with_sorted_users() {
    // Declared in reverse: the report is still PA5 before PB9, users sorted.
    let c = config(vec![
        ("usart1", table(&[("tx", s("PB9")), ("rx", s("PA10"))])),
        ("i2c1", table(&[("sda", s("PB9")), ("scl", s("PB8"))])),
        ("tim2", table(&[("channel1", s("PA5"))])),
        ("spi1", table(&[("mosi", s("PA7")), ("miso", s("PA6")), ("sck", s("PA5"))])),
    ]);
    let conflicts = pin_conflicts(&c, &Database::f446re());
    let names: Vec<String> = conflicts
        .iter()
        .filter(|c| matches!(c, Conflict::PinCollision { .. }))
        .map(|c| c.to_string())
        .collect();
    assert_eq!(
        names,
        vec![
            "pin collision on PA5: assigned to SPI1_SCK and TIM2_CH1".to_string(),
            "pin collision on PB9: assigned to I2C1_SDA and USART1_TX".to_string(),
        ]
    );
}

#[test]
fn detects_af_mismatch() {
    let c = config(vec![("usart2", table(&[("tx", s("PB0")), ("rx", s("PA3"))]))]);
    let conflicts = solve_cfg(&c);
    assert!(
        conflicts.iter().any(|c| matches!(
            c,
            Conflict::AfMismatch { pin, signal, .. } if pin.to_string() == "PB0" && signal == "TX"
        )),
        "got {conflicts:?}"
    );
}

#[test]
fn detects_missing_required_pin() {
    let c = config(vec![("spi1", table(&[("miso", s("PA6")), ("sck", s("PA5"))]))]);
    let conflicts = solve_cfg(&c);
    assert!(
        conflicts.iter().any(|c| matches!(
            c,
            Conflict::MissingPin { peripheral, signal, .. } if peripheral == "SPI1" && signal == "MOSI"
        )),
        "got {conflicts:?}"
    );
}

#[test]
fn missing_optional_pin_is_not_a_conflict() {
    let c = config(vec![("spi1", table(&[("mosi", s("PA7")), ("miso", s("PA6")), ("sck", s("PA5"))]))]);
    assert_eq!(solve_cfg(&c), vec![]);
}

#[test]
fn detects_clock_domain_disabled() {
    let mut c = config(vec![("spi1", table(&[("mosi", s("PA7")), ("miso", s("PA6")), ("sck", s("PA5"))]))]);
    c.clocks.apb2 = false;
    let conflicts = solve_cfg(&c);
    assert!(
        conflicts.iter().any(|c| matches!(
            c,
            Conflict::ClockDomainDisabled { peripheral, bus } if peripheral == "SPI1" && *bus == Bus::Apb2
        )),
        "got {conflicts:?}"
    );
}

#[test]
fn detects_peripheral_unavailable_on_family() {
    let mut c = config(vec![("uart4", table(&[("tx", s("PA0")), ("rx", s("PA1"))]))]);
    c.device.family = "STM32F411RE".to_string();
    let conflicts = solve(&c, &Database::f411re(), &vec![]);
    assert_eq!(
        conflicts,
        vec![Conflict::PeripheralUnavailable { peripheral: "UART4".to_string(), family: "STM32F411RE".to_string() }],
        "got {conflicts:?}"
    );
}

#[test]
fn invalid_pin_name_reported() {
    let c = config(vec![("usart2", table(&[("tx", s("PZ9")), ("rx", s("PA3"))]))]);
    let conflicts = solve_cfg(&c);
    assert!(
        conflicts.iter().any(|c| matches!(c, Conflict::InvalidPin { value, .. } if value == "PZ9")),
        "got {conflicts:?}"
    );
}

#[test]
fn overclocked_bus_is_reported_after_pin_conflicts() {
    let mut c = config(vec![("spi1", table(&[("miso", s("PA6")), ("sck", s("PA5"))]))]);
    c.clocks.apb1_prescaler = Some(1);
    let conflicts = solve_cfg(&c);
    assert_eq!(conflicts.len(), 2, "{conflicts:?}");
    assert!(matches!(conflicts[0], Conflict::MissingPin { .. }));
    assert!(matches!(conflicts[1], Conflict::ClockConstraint { .. }));
}

#[test]
fn test_block_validation() {
    let mut c = Config::default();
    let mut scripted = test_case("scripted_ok", "");
    scripted.kind = Some("scripted".into());
    scripted.script = Some("smoke".into());
    let mut scripted_bad = test_case("scripted_bad", "pin PA5 is high within 5ms");
    scripted_bad.kind = Some("scripted".into());
    let mut weird = test_case("weird", "x");
    weird.kind = Some("fuzz".into());
    let mut bad_backend = test_case("bad_backend", "trace event \"x\" within 1ms");
    bad_backend.backend = Some("renode".into());
    c.test = vec![
        test_case("bad_pin", "pin PZ9 toggles at 1Hz ±5%"),
        test_case("bad_uart", "USART9 echoes \"hi\" within 10ms"),
        test_case("garbage", "wibble"),
        test_case("empty", ""),
        scripted,
        scripted_bad,
        weird,
        bad_backend,
    ];
    let parsed = vec![
        Ok(AssertionSubject::Pin("PZ9".into())),
        Ok(AssertionSubject::Uart("USART9".into())),
        Err("unknown leading subject \"wibble\"".into()),
        Err("empty assertion string".into()),
        Err("unused".into()),
        Err("unused".into()),
        Err("unused".into()),
        Ok(AssertionSubject::Trace),
    ];
    let got: Vec<String> = test_conflicts(&c, &Database::f446re(), &parsed).iter().map(|c| c.to_string()).collect();
    assert_eq!(
        got,
        vec![
            "invalid test [bad_pin]: 'PZ9' is not a valid pin name",
            "invalid test [bad_uart]: peripheral USART9 is not available on this family",
            "invalid test [garbage]: unknown leading subject \"wibble\"",
            "invalid test [empty]: declarative test requires an `assertion`",
            "invalid test [scripted_bad]: scripted test requires a non-empty `script`",
            "invalid test [scripted_bad]: scripted test must not set `assertion`",
            "invalid test [weird]: type must be \"declarative\" or \"scripted\", got \"fuzz\"",
            "invalid test [bad_backend]: backend must be \"qemu\", \"hardware\", or \"both\", got \"renode\"",
        ]
    );
}

// --- DMA arbitration ----------------------------------------------------------

#[test]
fn no_dma_opt_in_is_never_flagged() {
    let c = config(vec![
        ("usart2", table(&[("tx", s("PA2")), ("rx", s("PA3"))])),
        ("tim2", table(&[("channel1", s("PA5"))])),
    ]);
    assert_eq!(dma::validate(&c, &DmaMap::f446re()), vec![]);
}

#[test]
fn single_dma_peripheral_is_clean() {
    let c = config(vec![("usart2", table(&[("tx", s("PA2")), ("rx", s("PA3")), ("dma", ConfigValue::Boolean(true))]))]);
    assert_eq!(dma::validate(&c, &DmaMap::f446re()), vec![]);
}

#[test]
fn dma_direction_arrays_select_streams() {
    let c = config(vec![(
        "usart2",
        table(&[("dma", ConfigValue::Array(vec!["rx".into(), "RX".into(), "bogus".into()]))]),
    )]);
    assert_eq!(dma::validate(&c, &DmaMap::f446re()), vec![]);
}

// --- IRQ ------------------------------------------------------------------------

#[test]
fn irq_checks() {
    let mut c = config(vec![
        (
            "usart2",
            table(&[
                ("tx", s("PA2")),
                ("rx", s("PA3")),
                ("irq", ConfigValue::Boolean(true)),
                ("irq_priority", ConfigValue::Integer(5)),
                ("dma_priority", ConfigValue::Integer(7)),
            ]),
        ),
        ("madeup1", table(&[("irq", ConfigValue::Boolean(true))])),
    ]);
    c.exti = vec![
        ExtiPin { pin: "PA0".into(), priority: Some(3) },
        ExtiPin { pin: "PB0".into(), priority: None },
        ExtiPin { pin: "PZ1".into(), priority: None },
        ExtiPin { pin: "PA3".into(), priority: Some(9) },
    ];
    let got = irq::validate(&c, &IrqMap::f446re());
    let msgs: Vec<String> = got.iter().map(|c| c.to_string()).collect();
    assert_eq!(
        msgs,
        vec![
            "IRQ conflict [MADEUP1]: MADEUP1 has `irq = true` but no NVIC vector is modeled for it on this family",
            "IRQ conflict [PZ1]: invalid EXTI pin \"PZ1\": not a valid pin name",
            "IRQ conflict [PA0]: EXTI0 is shared by PA0 and PB0 but only one can trigger it",
            "IRQ conflict [USART2]: USART2: DMA priority 7 is less urgent than its IRQ priority 5 (priority inversion)",
            "IRQ conflict [USART2]: EXTI priority 9 on PA3 is less urgent than USART2's IRQ priority 5 on the same pin (priority inversion)",
        ]
    );
    assert_eq!(got[3].severity(), Severity::Warning);
    assert_eq!(got[0].severity(), Severity::Error);
}

#[test]
fn negative_priorities_render_with_sign() {
    let c = config(vec![(
        "spi1",
        table(&[("dma_priority", ConfigValue::Integer(-1)), ("irq_priority", ConfigValue::Integer(-3))]),
    )]);
    let got = irq::validate(&c, &IrqMap::f446re());
    assert_eq!(
        got[0].to_string(),
        "IRQ conflict [SPI1]: SPI1: DMA priority -1 is less urgent than its IRQ priority -3 (priority inversion)"
    );
}

#[test]
fn two_peripherals_one_stream_collide_with_suggestion() {
    let c = config(vec![
        ("i2c1", table(&[("sda", s("PB7")), ("scl", s("PB6")), ("dma", ConfigValue::Array(vec!["rx".into()]))])),
        ("uart5", table(&[("tx", s("PC12")), ("rx", s("PD2")), ("dma", ConfigValue::Array(vec!["rx".into()]))])),
    ]);
    let conflicts = dma::validate(&c, &DmaMap::f446re());
    assert_eq!(conflicts.len(), 1, "got {conflicts:?}");
    match &conflicts[0] {
        Conflict::DmaCollision { first, second, controller, stream, suggestion } => {
            assert_eq!(first, "I2C1");
            assert_eq!(second, "UART5");
            assert_eq!(controller, "DMA1");
            assert_eq!(*stream, 0);
            let (p, slot) = suggestion.as_ref().expect("a free alternative exists");
            assert_eq!(p, "I2C1");
            assert!(slot.contains("stream 5"), "got {slot}");
        }
        other => panic!("expected DmaCollision, got {other:?}"),
    }
}

#[test]
fn one_conflict_per_stream_not_per_pair() {
    let c = config(vec![
        ("usart2", table(&[("tx", s("PA2")), ("rx", s("PA3")), ("dma", ConfigValue::Array(vec!["rx".into()]))])),
        ("tim2", table(&[("channel1", s("PA5")), ("dma", ConfigValue::Array(vec!["rx".into()]))])),
    ]);
    let conflicts = dma::validate(&c, &DmaMap::f446re());
    assert_eq!(conflicts.len(), 1, "got {conflicts:?}");
    if let Conflict::DmaCollision { stream, suggestion, .. } = &conflicts[0] {
        assert_eq!(*stream, 5);
        assert!(suggestion.is_none(), "got {suggestion:?}");
    }
}

#[test]
fn family_parameterized_f411() {
    let c = config(vec![
        ("i2c1", table(&[("sda", s("PB7")), ("scl", s("PB6")), ("dma", ConfigValue::Array(vec!["rx".into()]))])),
        ("uart5", table(&[("tx", s("PC12")), ("rx", s("PD2")), ("dma", ConfigValue::Array(vec!["rx".into()]))])),
    ]);
    assert_eq!(dma::validate(&c, &DmaMap::f411re()), vec![]);
}

#[test]
fn mosi_miso_spellings_map_to_directions() {
    let c = config(vec![(
        "spi1",
        table(&[("mosi", s("PA7")), ("miso", s("PA6")), ("sck", s("PA5")), ("dma", ConfigValue::Array(vec!["miso".into()]))]),
    )]);
    assert_eq!(dma::validate(&c, &DmaMap::f446re()), vec![]);
}
