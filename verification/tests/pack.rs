use nucleus::db::pack;
use nucleus::db::pack::{generate_table, normalize_pin_name, pin_sort_key, PackError, RawMapping};

const GPIO_MODES_FIXTURE: &str = r#"<?xml version="1.0" encoding="UTF-8" standalone="no"?>
<IP Name="GPIO" Version="STM32F446_gpio_v1_0" xmlns="http://dummy.com">
    <GPIO_Pin PortName="PA" Name="PA7">
        <SpecificParameter Name="GPIO_Pin">
            <PossibleValue>GPIO_PIN_7</PossibleValue>
        </SpecificParameter>
        <PinSignal Name="SPI1_MOSI">
            <SpecificParameter Name="GPIO_AF">
                <PossibleValue>GPIO_AF5_SPI1</PossibleValue>
            </SpecificParameter>
        </PinSignal>
        <PinSignal Name="TIM3_CH2">
            <SpecificParameter Name="GPIO_AF">
                <PossibleValue>GPIO_AF2_TIM3</PossibleValue>
            </SpecificParameter>
        </PinSignal>
    </GPIO_Pin>
    <GPIO_Pin PortName="PA" Name="PA13">
        <PinSignal Name="SYS_JTMS-SWDIO">
            <SpecificParameter Name="GPIO_AF">
                <PossibleValue>GPIO_AF0_SYS</PossibleValue>
            </SpecificParameter>
        </PinSignal>
    </GPIO_Pin>
    <GPIO_Pin PortName="PA" Name="PA15">
        <PinSignal Name="CEC">
            <SpecificParameter Name="GPIO_AF">
                <PossibleValue>GPIO_AF4_CEC</PossibleValue>
            </SpecificParameter>
        </PinSignal>
    </GPIO_Pin>
    <GPIO_Pin PortName="PDR_ON" Name="PDR_ON">
        <PinSignal Name="SYS_PDR_ON">
            <SpecificParameter Name="GPIO_AF">
                <PossibleValue>GPIO_AF0_SYS</PossibleValue>
            </SpecificParameter>
        </PinSignal>
    </GPIO_Pin>
</IP>"#;

const MCU_FIXTURE: &str = r#"<?xml version="1.0" encoding="UTF-8" standalone="no"?>
<Mcu Family="STM32F4" Line="STM32F446" RefName="STM32F446R(C-E)Tx" xmlns="http://dummy.com">
    <Pin Name="VBAT" Position="1" Type="Power"/>
    <Pin Name="PC13" Position="2" Type="I/O"/>
    <Pin Name="PC14-OSC32_IN" Position="3" Type="I/O"/>
    <Pin Name="NRST" Position="7" Type="Reset"/>
    <Pin Name="PA7" Position="23" Type="I/O"/>
</Mcu>"#;

#[test]
fn parses_gpio_modes_xml() {
    let mappings = pack::parse_gpio_modes(GPIO_MODES_FIXTURE).unwrap();

    assert_eq!(mappings.len(), 4);
    let m = &mappings[0];
    assert_eq!(
        (
            m.pin.as_str(),
            m.af,
            m.peripheral.as_str(),
            m.signal.as_str()
        ),
        ("PA7", 5, "SPI1", "MOSI")
    );
    // Signals containing dashes keep everything after the first underscore.
    let swdio = mappings.iter().find(|m| m.pin == "PA13").unwrap();
    assert_eq!(
        (swdio.af, swdio.peripheral.as_str(), swdio.signal.as_str()),
        (0, "SYS", "JTMS-SWDIO")
    );
    // Known anomaly: peripheral-only signal names (the F446's HDMI-CEC) have
    // no PERIPH_SIGNAL form and normalize to peripheral == signal.
    let cec = mappings.iter().find(|m| m.pin == "PA15").unwrap();
    assert_eq!(
        (cec.af, cec.peripheral.as_str(), cec.signal.as_str()),
        (4, "CEC", "CEC")
    );
    // Known anomaly: non-GPIO entries (the F446's PDR_ON ball) are skipped.
    assert!(!mappings.iter().any(|m| m.pin.contains("PDR")));
}

#[test]
fn parses_package_pins_and_normalizes_names() {
    let pins = pack::parse_package_pins(MCU_FIXTURE).unwrap();

    // Only GPIO pins, with oscillator suffixes stripped; power/reset excluded.
    assert_eq!(pins, vec!["PC13", "PC14", "PA7"]);
}

#[test]
fn patches_add_and_remove_mappings() {
    let mut mappings = pack::parse_gpio_modes(GPIO_MODES_FIXTURE).unwrap();
    let patches = [
        pack::Patch::Remove {
            pin: "PA7",
            af: 2,
            peripheral: "TIM3",
            signal: "CH2",
            reason: "test",
        },
        pack::Patch::Add {
            pin: "PA7",
            af: 9,
            peripheral: "TIM14",
            signal: "CH1",
            reason: "test",
        },
    ];

    pack::apply_patches(&mut mappings, &patches);

    assert!(!mappings.iter().any(|m| m.peripheral == "TIM3"));
    assert!(mappings
        .iter()
        .any(|m| m.peripheral == "TIM14" && m.af == 9));
}

#[test]
fn generated_table_is_deterministic_filtered_and_sorted() {
    let mappings = pack::parse_gpio_modes(GPIO_MODES_FIXTURE).unwrap();
    let pins = vec!["PA7".to_string()]; // PA13 not in package -> filtered out

    let a = pack::generate_table(&mappings, &pins, "TEST");
    let b = pack::generate_table(&mappings, &pins, "TEST");

    assert_eq!(a, b, "generation must be byte-deterministic");
    assert!(
        !a.contains("PA13") && !a.contains("JTMS"),
        "non-package pins filtered"
    );
    // Sorted by AF: TIM3 (AF2) before SPI1 (AF5).
    let tim3 = a.find("TIM3").unwrap();
    let spi1 = a.find("SPI1").unwrap();
    assert!(tim3 < spi1, "entries sorted by (pin, af)");
}

fn raw(pin: &str, af: u8, peripheral: &str, signal: &str) -> RawMapping {
    RawMapping { pin: pin.to_string(), af, peripheral: peripheral.to_string(), signal: signal.to_string() }
}

#[test]
fn generated_table_text_is_exact() {
    let mappings = vec![
        raw("PB1", 2, "TIM3", "CH4"),
        raw("PA7", 5, "SPI1", "MOSI"),
        raw("PA7", 2, "TIM3", "CH2"),
        raw("PA7", 5, "SPI1", "MOSI"),
        raw("PC9", 0, "RCC", "MCO_2"),
    ];
    let pins = vec!["PA7".to_string(), "PB1".to_string()];
    let t = generate_table(&mappings, &pins, "F");
    assert_eq!(
        t,
        "// @generated by build.rs from packdata/ — do not edit.\npub(crate) const F: &[AfMapping] = &[\n    map(Port::A, 7, 2, \"TIM3\", \"CH2\"),\n    map(Port::A, 7, 5, \"SPI1\", \"MOSI\"),\n    map(Port::B, 1, 2, \"TIM3\", \"CH4\"),\n];\n"
    );
}

#[test]
fn pin_names_normalize_and_sort() {
    assert_eq!(pin_sort_key("PA7"), Some(('A', 7)));
    assert_eq!(pin_sort_key("PC15"), Some(('C', 15)));
    assert_eq!(pin_sort_key("PA16"), None);
    assert_eq!(pin_sort_key("pa7"), None);
    assert_eq!(pin_sort_key("P"), None);
    assert_eq!(normalize_pin_name("PC14-OSC32_IN").as_deref(), Some("PC14"));
    assert_eq!(normalize_pin_name("PH0 / OSC_IN").as_deref(), Some("PH0"));
    assert_eq!(normalize_pin_name("VBAT"), None);
}

#[test]
fn malformed_xml_is_a_pack_error() {
    match pack::parse_gpio_modes("<IP><GPIO_Pin") {
        Err(PackError::Malformed(m)) => assert!(m.starts_with("gpio modes xml: ")),
        other => panic!("expected malformed, got {other:?}"),
    }
    let missing = "<IP><GPIO_Pin><PinSignal/></GPIO_Pin></IP>";
    assert_eq!(
        pack::parse_gpio_modes(missing),
        Err(PackError::Malformed("<GPIO_Pin> missing Name attribute".to_string()))
    );
    let bad_af = "<IP><GPIO_Pin Name=\"PA1\"><PinSignal Name=\"X_Y\"><SpecificParameter Name=\"GPIO_AF\"><PossibleValue>GPIO_AF99_X</PossibleValue></SpecificParameter></PinSignal></GPIO_Pin></IP>";
    assert_eq!(
        pack::parse_gpio_modes(bad_af),
        Err(PackError::Malformed("bad GPIO_AF value \"GPIO_AF99_X\"".to_string()))
    );
    assert_eq!(
        PackError::Malformed("x".to_string()).to_string(),
        "malformed pack data: x"
    );
}
