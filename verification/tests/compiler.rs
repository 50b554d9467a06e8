use nucleus::compiler::clocks::{dyadic_3dp, mhz, peripheral_freq, resolve, validate};
use nucleus::compiler::config::{Clocks, Config, ConfigValue, Peripheral};
use nucleus::compiler::model::{peripheral_bus, peripheral_name, roles_for, Bus};
use nucleus::compiler::solver::{Conflict, Severity};
use nucleus::compiler::{clock_tree_for, database_for, dma_map_for, irq_map_for, UnknownFamily};
use nucleus::db::clock::ClockTree;
use nucleus::db::Pin;

fn f446() -> ClockTree {
    ClockTree::f446re()
}

fn f411() -> ClockTree {
    ClockTree::f411re()
}

// --- clock tree ----------------------------------------------------------

#[test]
fn f446_default_config_resolves_to_180mhz() {
    let r = resolve(&Clocks::default(), &f446()).unwrap();
    assert_eq!(r.sysclk_hz, 180_000_000);
    assert_eq!(r.hclk_hz, 180_000_000);
    assert_eq!(r.pclk1_hz, 45_000_000); // /4
    assert_eq!(r.pclk2_hz, 90_000_000); // /2
    assert_eq!(r.apb1_timer_hz, 90_000_000); // doubled (presc != 1)
    assert_eq!(r.apb2_timer_hz, 180_000_000); // doubled
}

#[test]
fn f411_default_config_resolves_to_100mhz() {
    let r = resolve(&Clocks::default(), &f411()).unwrap();
    assert_eq!(r.sysclk_hz, 100_000_000);
    assert_eq!(r.hclk_hz, 100_000_000);
    assert_eq!(r.pclk1_hz, 50_000_000); // /2
    assert_eq!(r.pclk2_hz, 100_000_000); // /1
    assert_eq!(r.apb1_timer_hz, 100_000_000); // doubled (presc 2)
    assert_eq!(r.apb2_timer_hz, 100_000_000); // presc 1 -> not doubled
}

#[test]
fn explicit_pll_math_matches_reference() {
    // HSE 8 MHz, M=8 (VCO_in 1 MHz), N=336 (VCO_out 336 MHz), P=4 -> 84 MHz.
    let mut c = Clocks::default();
    c.source = Some("pll".to_string());
    c.pll_source = Some("hse".to_string());
    c.pll_m = Some(8);
    c.pll_n = Some(336);
    c.pll_p = Some(4);
    let r = resolve(&c, &f446()).unwrap();
    assert_eq!(r.pll_vco_in_hz, 1_000_000);
    assert_eq!(r.pll_vco_out_hz, 336_000_000);
    assert_eq!(r.sysclk_hz, 84_000_000);
}

#[test]
fn peripheral_freqs_pclk_vs_timer() {
    let tree = f446();
    let r = resolve(&Clocks::default(), &tree).unwrap();
    // USART2 on APB1 -> plain PCLK1.
    assert_eq!(peripheral_freq("USART2", &tree, &r).unwrap().hz, 45_000_000);
    // TIM2 on APB1 -> the doubled timer clock.
    assert_eq!(peripheral_freq("TIM2", &tree, &r).unwrap().hz, 90_000_000);
    // Unmodeled -> None.
    assert!(peripheral_freq("MADEUP", &tree, &r).is_none());
}

#[test]
fn mhz_formats_fractions() {
    assert_eq!(mhz(45_000_000), "45");
    assert_eq!(mhz(22_500_000), "22.5");
    assert_eq!(mhz(500_000), "0.5");
}

#[test]
fn unknown_sysclk_source_resolves_to_nothing() {
    let mut c = Clocks::default();
    c.source = Some("bogus".to_string());
    assert!(resolve(&c, &f446()).is_none());
    c.source = Some("PLL".to_string());
    assert!(resolve(&c, &f446()).is_some());
}

#[test]
fn zero_prescaler_resolves_to_nothing() {
    let mut c = Clocks::default();
    c.apb1_prescaler = Some(0);
    assert!(resolve(&c, &f446()).is_none());
}

#[test]
fn default_config_has_no_clock_conflicts() {
    assert!(validate(&Config::default(), &f446()).is_empty());
    let mut cfg = Config::default();
    cfg.device.family = "STM32F411RE".to_string();
    assert!(validate(&cfg, &f411()).is_empty());
}

#[test]
fn overclocked_apb1_is_reported() {
    let mut cfg = Config::default();
    cfg.clocks.apb1_prescaler = Some(1);
    let conflicts = validate(&cfg, &f446());
    assert_eq!(conflicts.len(), 1);
    assert_eq!(
        conflicts[0],
        Conflict::ClockConstraint {
            node: "APB1".to_string(),
            reason: "APB1 = 180 MHz exceeds the 45 MHz limit".to_string(),
        }
    );
}

#[test]
fn unknown_source_is_a_single_terminal_conflict() {
    let mut cfg = Config::default();
    cfg.clocks.source = Some("xtal".to_string());
    cfg.clocks.apb1_prescaler = Some(3);
    let conflicts = validate(&cfg, &f446());
    assert_eq!(
        conflicts,
        vec![Conflict::ClockConstraint {
            node: "SYSCLK".to_string(),
            reason: "unknown SYSCLK source \"xtal\" (expected hsi, hse, or pll)".to_string(),
        }]
    );
}

#[test]
fn invalid_prescaler_stops_before_frequency_checks() {
    let mut cfg = Config::default();
    cfg.clocks.apb1_prescaler = Some(3);
    let conflicts = validate(&cfg, &f446());
    assert_eq!(conflicts.len(), 1);
    match &conflicts[0] {
        Conflict::ClockConstraint { node, reason } => {
            assert_eq!(node, "APB1");
            assert!(reason.starts_with("APB1 prescaler 3 is not one of the allowed values"), "{reason}");
        }
        other => panic!("unexpected {other:?}"),
    }
}

#[test]
fn unreachable_baud_is_reported_with_closest_rate() {
    let mut cfg = Config::default();
    cfg.clocks.source = Some("hsi".to_string());
    let mut table = Peripheral::new();
    table.0.push(("tx".to_string(), ConfigValue::String("PA2".to_string())));
    table.0.push(("baud".to_string(), ConfigValue::Integer(3_000_000)));
    cfg.peripherals.push(("usart2".to_string(), table));
    let conflicts = validate(&cfg, &f446());
    assert_eq!(conflicts.len(), 1, "{conflicts:?}");
    match &conflicts[0] {
        Conflict::ClockConstraint { node, reason } => {
            assert_eq!(node, "USART2");
            assert_eq!(
                reason,
                "3000000 baud is unreachable from 4 MHz APB1 (closest 4000000 baud, 33.3% error exceeds 2% tolerance)"
            );
        }
        other => panic!("unexpected {other:?}"),
    }
}

#[test]
fn unachievable_pwm_reports_the_actual_rate() {
    let mut cfg = Config::default();
    let mut table = Peripheral::new();
    table.0.push(("frequency_hz".to_string(), ConfigValue::Integer(100_000)));
    table.0.push(("duty_resolution_bits".to_string(), ConfigValue::Integer(16)));
    cfg.peripherals.push(("tim2".to_string(), table));
    let conflicts = validate(&cfg, &f446());
    assert_eq!(conflicts.len(), 1, "{conflicts:?}");
    match &conflicts[0] {
        Conflict::ClockConstraint { node, reason } => {
            assert_eq!(node, "TIM2");
            assert!(reason.contains("run at ~2746.582 Hz instead of 100000 Hz"), "{reason}");
        }
        other => panic!("unexpected {other:?}"),
    }
}

#[test]
fn dyadic_rendering_matches_float_formatting() {
    for (clk, bits) in [(180_000_000u64, 16u32), (1, 31), (16_000_000, 3), (99_999_999, 7)] {
        let expected = format!("{:.3}", clk as f64 / (1u64 << bits) as f64);
        assert_eq!(dyadic_3dp(clk, bits), expected);
    }
}

// --- peripheral model ----------------------------------------------------

#[test]
fn role_tables_resolve_by_prefix() {
    assert!(roles_for("usart2").is_some());
    assert!(roles_for("spi1").is_some());
    assert!(roles_for("i2c3").is_some());
    assert!(roles_for("tim2").is_some());
    assert!(roles_for("wibble9").is_none());
}

#[test]
fn spi_required_and_optional() {
    let roles = roles_for("spi1").unwrap();
    let nss = roles.iter().find(|r| r.key == "nss").unwrap();
    let sck = roles.iter().find(|r| r.key == "sck").unwrap();
    assert!(!nss.required);
    assert!(sck.required);
}

#[test]
fn buses_match_f446() {
    assert_eq!(peripheral_bus("SPI1"), Some(Bus::Apb2));
    assert_eq!(peripheral_bus("USART2"), Some(Bus::Apb1));
    assert_eq!(peripheral_bus("I2C1"), Some(Bus::Apb1));
    assert_eq!(peripheral_bus("MADEUP"), None);
}

#[test]
fn peripheral_name_uppercases() {
    assert_eq!(peripheral_name("usart2"), "USART2");
    assert_eq!(peripheral_name("Tim11"), "TIM11");
}

// --- conflicts -------------------------------------------------------------

#[test]
fn pre_m3_conflict_variants_are_all_severity_error() {
    let pin = "PA5".parse::<Pin>().unwrap();
    assert_eq!(Conflict::PinCollision { pin, users: vec![] }.severity(), Severity::Error);
    assert_eq!(
        Conflict::AfMismatch { pin, peripheral: "USART2".to_string(), signal: "TX".to_string() }.severity(),
        Severity::Error
    );
    assert_eq!(
        Conflict::InvalidPin {
            peripheral: "USART2".to_string(),
            key: "tx".to_string(),
            value: "PZ9".to_string(),
        }
        .severity(),
        Severity::Error
    );
    assert_eq!(
        Conflict::MissingPin {
            peripheral: "SPI1".to_string(),
            key: "mosi".to_string(),
            signal: "MOSI".to_string(),
        }
        .severity(),
        Severity::Error
    );
    assert_eq!(
        Conflict::ClockDomainDisabled { peripheral: "SPI1".to_string(), bus: Bus::Apb2 }.severity(),
        Severity::Error
    );
    assert_eq!(
        Conflict::PeripheralUnavailable {
            peripheral: "UART4".to_string(),
            family: "STM32F411RE".to_string(),
        }
        .severity(),
        Severity::Error
    );
    assert_eq!(
        Conflict::ClockConstraint { node: "SYSCLK".to_string(), reason: "over-clocked".to_string() }.severity(),
        Severity::Error
    );
    assert_eq!(
        Conflict::DmaCollision {
            first: "USART2".to_string(),
            second: "SPI1".to_string(),
            controller: "DMA1".to_string(),
            stream: 3,
            suggestion: None,
        }
        .severity(),
        Severity::Error
    );
}

#[test]
fn irq_conflict_severity_is_per_instance() {
    assert_eq!(
        Conflict::IrqConflict {
            node: "EXTI0".to_string(),
            reason: "enabled but unhandled".to_string(),
            severity: Severity::Error,
        }
        .severity(),
        Severity::Error
    );
    assert_eq!(
        Conflict::IrqConflict {
            node: "PA0".to_string(),
            reason: "shares EXTI0 with PB0".to_string(),
            severity: Severity::Warning,
        }
        .severity(),
        Severity::Warning
    );
}

#[test]
fn unroutable_severity_is_always_error() {
    assert_eq!(
        Conflict::Unroutable {
            node: "USART2_TX".to_string(),
            reason: "no free pins satisfy constraints".to_string(),
        }
        .severity(),
        Severity::Error
    );
}

#[test]
fn unroutable_display_format() {
    let conflict = Conflict::Unroutable {
        node: "SPI1_MOSI".to_string(),
        reason: "all candidate pins are occupied".to_string(),
    };
    let display = conflict.to_string();
    assert!(display.contains("unroutable"), "display: {display}");
    assert!(display.contains("SPI1_MOSI"), "display: {display}");
    assert!(display.contains("all candidate pins are occupied"), "display: {display}");
}

#[test]
fn invalid_test_display_format() {
    let conflict = Conflict::InvalidTest {
        node: "uart2_echo".to_string(),
        reason: "'NOTAPIN' is not a valid pin name".to_string(),
    };
    let display = conflict.to_string();
    assert!(display.contains("invalid test"), "display: {display}");
    assert!(display.contains("uart2_echo"), "display: {display}");
    assert!(display.contains("'NOTAPIN' is not a valid pin name"), "display: {display}");
}

#[test]
fn invalid_pin_message_quotes_the_value() {
    let c = Conflict::InvalidPin {
        peripheral: "USART2".to_string(),
        key: "tx".to_string(),
        value: "PZ9".to_string(),
    };
    assert_eq!(c.to_string(), "invalid pin: USART2.tx = \"PZ9\" is not a valid pin name");
}

// --- family selection --------------------------------------------------------

#[test]
fn family_selection_and_unknown_family() {
    assert!(database_for("STM32F446RE").is_ok());
    assert!(database_for("").is_ok());
    assert!(database_for("STM32F411RE").unwrap().has_peripheral("USART1"));
    let err = database_for("STM32H743ZI").unwrap_err();
    assert_eq!(err, UnknownFamily("STM32H743ZI".to_string()));
    assert_eq!(
        err.to_string(),
        "unsupported device family \"STM32H743ZI\": Nucleus supports STM32F446RE and STM32F411RE"
    );
    assert_eq!(clock_tree_for("STM32F411RE").limits().max_sysclk_hz, 100_000_000);
    assert_eq!(clock_tree_for("anything").limits().max_sysclk_hz, 180_000_000);
    assert!(dma_map_for("STM32F411RE").has_peripheral("USART1"));
    assert!(irq_map_for("STM32F446RE").has_peripheral("USART2"));
}

#[test]
fn resolve_refuses_a_vco_that_overflows_instead_of_wrapping() {
    let mut c = Clocks::default();
    c.pll_m = Some(1);
    c.pll_n = Some(1000);
    assert!(resolve(&c, &f446()).is_none());
}
