use std::collections::BTreeMap;

use nucleus::compiler::config::{Config, ConfigValue, ExtiPin, Peripheral};
use nucleus::compiler::router::{route, route_greedy};
use nucleus::compiler::solver::{solve, AssertionSubject, Conflict};
use nucleus::db::{Database, Pin};

fn config(family: &str, peripherals: Vec<(&str, Vec<(&str, &str)>)>) -> Config {
    let mut c = Config::default();
    c.device.family = family.to_string();
    let mut ps: Vec<(String, Peripheral)> = peripherals
        .into_iter()
        .map(|(k, entries)| {
            let mut p = Peripheral::new();
            for (key, value) in entries {
                p.0.push((key.to_string(), ConfigValue::String(value.to_string())));
            }
            (k.to_string(), p)
        })
        .collect();
    ps.sort_by(|a, b| a.0.cmp(&b.0));
    c.peripherals = ps;
    c
}

fn exti(c: &mut Config, pin: &str) {
    c.exti.push(ExtiPin { pin: pin.to_string(), priority: None });
}

fn db() -> Database {
    Database::f446re()
}

fn no_tests(c: &Config) -> Vec<Result<AssertionSubject, String>> {
    c.test.iter().map(|_| Err("unparsed".to_string())).collect()
}

type Routed = BTreeMap<(String, String), Pin>;

fn run(c: &Config, database: &Database) -> Result<Routed, Vec<Conflict>> {
    let parsed = no_tests(c);
    route(c.clone(), database, &parsed).map(|v| v.into_iter().collect())
}

fn run_greedy(c: &Config, database: &Database) -> Result<Routed, Vec<Conflict>> {
    let parsed = no_tests(c);
    route_greedy(c.clone(), database, &parsed).map(|v| v.into_iter().collect())
}

fn key(instance: &str, role: &str) -> (String, String) {
    (instance.to_string(), role.to_string())
}

fn pin(s: &str) -> Pin {
    Pin::parse(s).unwrap()
}

#[test]
fn simple_route_fills_required_roles() {
    let cfg = config("", vec![("usart2", vec![])]);
    let result = run(&cfg, &db()).expect("should route");
    assert_eq!(result.get(&key("usart2", "tx")), Some(&pin("PA2")));
    assert_eq!(result.get(&key("usart2", "rx")), Some(&pin("PA3")));
    assert_eq!(result.len(), 2, "got {result:?}");
}

#[test]
fn already_pinned_roles_are_not_in_the_result() {
    let cfg = config("", vec![("usart2", vec![("tx", "PA2")])]);
    let result = run(&cfg, &db()).expect("should route");
    assert!(!result.contains_key(&key("usart2", "tx")), "got {result:?}");
    assert_eq!(result.get(&key("usart2", "rx")), Some(&pin("PA3")));
    assert_eq!(result.len(), 1, "got {result:?}");
}

#[test]
fn fully_pinned_instance_has_no_open_roles() {
    let cfg = config("", vec![("usart2", vec![("tx", "PA2"), ("rx", "PA3")])]);
    let result = run(&cfg, &db()).expect("should route");
    assert_eq!(result, BTreeMap::new());
}

#[test]
fn optional_roles_are_never_auto_routed() {
    let cfg = config("", vec![("spi1", vec![])]);
    let result = run(&cfg, &db()).expect("should route");
    assert!(!result.contains_key(&key("spi1", "nss")), "got {result:?}");
    assert!(result.contains_key(&key("spi1", "mosi")));
    assert!(result.contains_key(&key("spi1", "miso")));
    assert!(result.contains_key(&key("spi1", "sck")));
}

#[test]
fn routed_assignment_passes_a_passthrough_check() {
    let cfg = config("", vec![("usart2", vec![]), ("spi1", vec![])]);
    let result = run(&cfg, &db()).expect("should route");
    let mut synthetic = cfg.clone();
    for ((instance, role), p) in &result {
        let table = synthetic.peripherals.iter_mut().find(|(name, _)| name == instance).unwrap();
        table.1 .0.push((role.clone(), ConfigValue::String(p.to_string())));
    }
    let conflicts = solve(&synthetic, &db(), &no_tests(&synthetic));
    assert_eq!(conflicts, vec![], "got {conflicts:?}");
}

#[test]
fn invalid_pin_on_an_already_pinned_role_aborts() {
    let cfg = config("", vec![("usart2", vec![("tx", "PZ9")])]);
    let err = run(&cfg, &db()).expect_err("should abort, not route around it");
    assert_eq!(err.len(), 1, "got {err:?}");
    assert!(matches!(&err[0], Conflict::InvalidPin { value, .. } if value == "PZ9"), "got {err:?}");
}

#[test]
fn af_mismatch_on_an_already_pinned_role_aborts() {
    let cfg = config("", vec![("usart2", vec![("tx", "PB0")])]);
    let err = run(&cfg, &db()).expect_err("should abort");
    assert_eq!(err.len(), 1, "got {err:?}");
    assert!(
        matches!(&err[0], Conflict::AfMismatch { pin, signal, .. } if pin.to_string() == "PB0" && signal == "TX"),
        "got {err:?}"
    );
}

#[test]
fn unavailable_peripheral_aborts_before_search() {
    let cfg = config("STM32F411RE", vec![("uart4", vec![])]);
    let err = run(&cfg, &Database::f411re()).expect_err("should abort");
    assert_eq!(err.len(), 1, "got {err:?}");
    assert!(
        matches!(&err[0], Conflict::PeripheralUnavailable { peripheral, family } if peripheral == "UART4" && family == "STM32F411RE"),
        "got {err:?}"
    );
}

#[test]
fn disabled_clock_domain_aborts_before_search() {
    let mut cfg = config("", vec![("spi1", vec![])]);
    cfg.clocks.apb2 = false;
    let err = run(&cfg, &db()).expect_err("should abort");
    assert_eq!(err.len(), 1, "got {err:?}");
    assert!(matches!(&err[0], Conflict::ClockDomainDisabled { peripheral, .. } if peripheral == "SPI1"), "got {err:?}");
}

#[test]
fn over_constrained_role_is_unroutable() {
    let cfg = config("", vec![("tim5", vec![("channel3", "PA2")]), ("usart2", vec![])]);
    let err = run(&cfg, &db()).expect_err("should be unroutable");
    assert_eq!(err.len(), 1, "got {err:?}");
    match &err[0] {
        Conflict::Unroutable { node, reason } => {
            assert_eq!(node, "USART2_TX");
            assert!(reason.contains("PA2"), "reason: {reason}");
        }
        other => panic!("expected Unroutable, got {other:?}"),
    }
}

#[test]
fn exti_pre_occupied_pin_makes_a_role_unroutable() {
    let mut cfg = config("", vec![("usart2", vec![])]);
    exti(&mut cfg, "PA2");
    let err = run(&cfg, &db()).expect_err("should be unroutable");
    assert_eq!(err.len(), 1, "got {err:?}");
    assert!(matches!(&err[0], Conflict::Unroutable { node, .. } if node == "USART2_TX"));
}

#[test]
fn same_port_preference_picks_single_port_solution() {
    let cfg = config("", vec![("spi1", vec![])]);
    let result = run(&cfg, &db()).expect("should route");
    let mosi = result[&key("spi1", "mosi")];
    let miso = result[&key("spi1", "miso")];
    let sck = result[&key("spi1", "sck")];
    assert_eq!(mosi, pin("PA7"));
    assert_eq!(miso, pin("PA6"), "MISO should prefer port A to match its siblings, got {}", miso.to_string());
    assert_eq!(sck, pin("PA5"));
    assert_eq!(mosi.port, miso.port);
    assert_eq!(miso.port, sck.port);
}

#[test]
fn demand_heuristic_prefers_lower_demand_pin() {
    let cfg = config("", vec![("spi1", vec![("miso", "PA6"), ("sck", "PA5")])]);
    let result = run(&cfg, &db()).expect("should route");
    assert_eq!(result[&key("spi1", "mosi")], pin("PA7"));
}

fn backtracking_fixture() -> Config {
    let mut cfg = config("", vec![("i2c1", vec![]), ("usart1", vec![])]);
    exti(&mut cfg, "PA9");
    cfg
}

#[test]
fn backtracking_required_when_first_choice_dead_ends() {
    let cfg = backtracking_fixture();
    assert!(run_greedy(&cfg, &db()).is_err(), "fixture premise violated: greedy should fail here");
    let result = run(&cfg, &db()).expect("backtracking should find a complete assignment");
    assert_eq!(result[&key("usart1", "tx")], pin("PB6"));
    assert_eq!(result[&key("i2c1", "scl")], pin("PB8"), "I2C1_SCL must have backtracked off PB6 to free it for USART1_TX");
    let mut pins: Vec<Pin> = result.values().copied().collect();
    pins.sort_unstable();
    let mut deduped = pins.clone();
    deduped.dedup();
    assert_eq!(pins, deduped, "no pin should be assigned twice: {result:?}");
}

#[test]
fn greedy_fallback_takes_first_choice_with_no_undo() {
    let cfg = backtracking_fixture();
    let err = run_greedy(&cfg, &db()).expect_err("greedy should get stuck on this fixture");
    assert_eq!(err.len(), 1, "got {err:?}");
    match &err[0] {
        Conflict::Unroutable { node, reason } => {
            assert_eq!(node, "USART1_TX");
            assert!(reason.contains("PA9"), "reason: {reason}");
            assert!(reason.contains("PB6"), "reason: {reason}");
            assert!(reason.contains("exti"), "reason: {reason}");
            assert!(reason.contains("I2C1_SCL"), "reason: {reason}");
        }
        other => panic!("expected Unroutable, got {other:?}"),
    }
}

#[test]
fn greedy_fallback_succeeds_on_an_uncontested_config() {
    let cfg = config("", vec![("usart2", vec![])]);
    let result = run_greedy(&cfg, &db()).expect("should route");
    assert_eq!(result.get(&key("usart2", "tx")), Some(&pin("PA2")));
    assert_eq!(result.get(&key("usart2", "rx")), Some(&pin("PA3")));
}

#[test]
fn stuck_reason_lists_every_candidate_with_its_holder() {
    let cfg = backtracking_fixture();
    let err = run_greedy(&cfg, &db()).unwrap_err();
    match &err[0] {
        Conflict::Unroutable { reason, .. } => {
            assert_eq!(reason, "no free pin among candidates: PA9 (held by [[exti]]), PB6 (held by I2C1_SCL)");
        }
        other => panic!("expected Unroutable, got {other:?}"),
    }
}

#[test]
fn unroutable_message_renders_node_and_reason() {
    let mut cfg = config("", vec![("usart2", vec![])]);
    exti(&mut cfg, "PA2");
    let err = run(&cfg, &db()).unwrap_err();
    assert_eq!(err[0].to_string(), "unroutable [USART2_TX]: no free pin among candidates: PA2 (held by [[exti]])");
}

#[test]
fn unmodelled_instances_are_ignored() {
    let cfg = config("", vec![("adc1", vec![]), ("usart2", vec![("tx", "PA2")])]);
    let result = run(&cfg, &db()).expect("should route");
    assert_eq!(result.len(), 1);
    assert_eq!(result[&key("usart2", "rx")], pin("PA3"));
}

#[test]
fn routed_pins_are_written_into_the_original_text() {
    let text = "[device]\nfamily = \"STM32F446RE\"\n\n# the debug console\n[peripherals.usart2]\n";
    let cfg = config("STM32F446RE", vec![("usart2", vec![])]);
    let parsed = no_tests(&cfg);
    let assignment = route(cfg.clone(), &db(), &parsed).unwrap();
    assert!(!assignment.is_empty());
    let rendered = nucleus::compiler::render::route_rendered(text, cfg, &db(), &parsed).unwrap().unwrap();
    assert!(rendered.starts_with("[device]\nfamily = \"STM32F446RE\"\n\n# the debug console\n[peripherals.usart2]\n"));
    for ((instance, role), p) in &assignment {
        assert_eq!(instance, "usart2");
        assert!(rendered.contains(&format!("{role} = \"{}\"", p.to_string())), "got {rendered}");
    }
}

#[test]
fn rendering_refuses_text_that_is_not_toml() {
    let assignment = vec![(("usart2".to_string(), "tx".to_string()), pin("PA2"))];
    assert_eq!(nucleus::compiler::render::render_routed("[peripherals", &assignment), None);
    let ok = nucleus::compiler::render::render_routed("[peripherals.usart2]\n", &assignment).unwrap();
    assert_eq!(ok, "[peripherals.usart2]\ntx = \"PA2\"\n");
}

#[test]
fn routed_pins_are_written_in_instance_then_key_order() {
    let assignment = vec![
        (("usart2".to_string(), "tx".to_string()), pin("PA2")),
        (("usart2".to_string(), "rx".to_string()), pin("PA3")),
        (("spi1".to_string(), "sck".to_string()), pin("PA5")),
    ];
    let text = "[peripherals.spi1]\n\n[peripherals.usart2]\n";
    let out = nucleus::compiler::render::render_routed(text, &assignment).unwrap();
    assert_eq!(out, "[peripherals.spi1]\nsck = \"PA5\"\n\n[peripherals.usart2]\nrx = \"PA3\"\ntx = \"PA2\"\n");
}
