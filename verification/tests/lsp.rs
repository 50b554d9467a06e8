use nucleus::compiler::config::{Config, ConfigValue, Peripheral};
use nucleus::compiler::solver::{AssertionSubject, Severity};
use nucleus::compiler::{check_config, CheckReport};
use nucleus::lsp::{completion, diagnostics, hover, ParseFailure, Position};

fn pos(line: u32, character: u32) -> Position {
    Position { line, character }
}

const CONFLICT: &str = "[device]\nfamily = \"STM32F446RE\"\n\n[peripherals.spi1]\nmosi = \"PA7\"\nmiso = \"PA6\"\nsck = \"PA5\"\n\n[peripherals.tim2]\nchannel1 = \"PA5\"\n";

fn value(v: &toml::Value) -> ConfigValue {
    match v {
        toml::Value::String(s) => ConfigValue::String(s.clone()),
        toml::Value::Integer(i) => ConfigValue::Integer(*i),
        toml::Value::Boolean(b) => ConfigValue::Boolean(*b),
        toml::Value::Array(a) => {
            ConfigValue::Array(a.iter().filter_map(|x| x.as_str().map(|s| s.to_string())).collect())
        }
        _ => ConfigValue::Other,
    }
}

/// Parses `text` the way the server does before it checks a document.
fn checked(text: &str) -> Result<CheckReport, ParseFailure> {
    let table = match text.parse::<toml::Table>() {
        Ok(t) => t,
        Err(e) => {
            return Err(ParseFailure {
                span: e.span().map(|r| (r.start, r.end)),
                message: e.message().to_string(),
            })
        }
    };
    let mut config = Config::default();
    if let Some(family) = table.get("device").and_then(|d| d.get("family")).and_then(|f| f.as_str()) {
        config.device.family = family.to_string();
    }
    if let Some(ps) = table.get("peripherals").and_then(|p| p.as_table()) {
        for (key, t) in ps {
            let mut p = Peripheral::new();
            if let Some(t) = t.as_table() {
                for (k, v) in t {
                    p.0.push((k.clone(), value(v)));
                }
            }
            config.peripherals.push((key.clone(), p));
        }
    }
    let parsed: Vec<Result<AssertionSubject, String>> = Vec::new();
    Ok(check_config(config, &parsed))
}

#[test]
fn clean_config_has_no_diagnostics() {
    let text = "[peripherals.usart2]\ntx = \"PA2\"\nrx = \"PA3\"\n";
    assert!(diagnostics(text, &checked(text)).is_empty());
}

#[test]
fn collision_underlines_both_pin_sites() {
    let diags = diagnostics(CONFLICT, &checked(CONFLICT));
    assert_eq!(diags.len(), 2, "expected one squiggle per colliding pin");
    for d in &diags {
        assert_eq!(d.severity, Severity::Error);
        assert!(d.message.contains("pin collision"));
        let line = d.range.start.line;
        let src_line = CONFLICT.lines().nth(line as usize).unwrap();
        assert!(src_line.contains("PA5"), "diagnostic not on a PA5 line: {src_line}");
    }
}

#[test]
fn af_mismatch_points_at_the_bad_pin() {
    let text = "[peripherals.usart2]\ntx = \"PB0\"\nrx = \"PA3\"\n";
    let diags = diagnostics(text, &checked(text));
    assert_eq!(diags.len(), 1);
    assert!(diags[0].message.contains("AF mismatch"));
    assert_eq!(diags[0].range.start.line, 1);
}

#[test]
fn missing_pin_points_at_the_table_header() {
    let text = "[peripherals.spi1]\nmiso = \"PA6\"\nsck = \"PA5\"\n";
    let diags = diagnostics(text, &checked(text));
    assert!(diags.iter().any(|d| d.message.contains("missing required pin")));
    let d = diags.iter().find(|d| d.message.contains("missing")).unwrap();
    assert_eq!(d.range.start.line, 0);
}

#[test]
fn syntax_error_is_a_single_diagnostic() {
    let text = "this is = = not valid";
    let diags = diagnostics(text, &checked(text));
    assert_eq!(diags.len(), 1);
}

#[test]
fn hover_on_pin_lists_alternate_functions() {
    let h = hover(CONFLICT, pos(6, 8)).expect("expected hover on PA5");
    assert!(h.markdown.contains("**PA5**"));
    assert!(h.markdown.contains("SPI1_SCK"));
    assert!(h.markdown.contains("TIM2_CH1"));
}

#[test]
fn hover_off_a_pin_is_none() {
    assert!(hover(CONFLICT, pos(1, 2)).is_none());
}

#[test]
fn completion_offers_pins_in_a_value_position() {
    let text = "[peripherals.spi1]\nmosi = \"\"\n";
    let items = completion(text, pos(1, 8));
    assert!(!items.is_empty());
    assert!(items.iter().any(|i| i.label == "PA7"));
}

#[test]
fn no_completion_outside_a_peripheral_table() {
    let text = "[device]\nfamily = \"\"\n";
    assert!(completion(text, pos(1, 10)).is_empty());
}

#[test]
fn collision_ranges_cover_the_quoted_values() {
    let diags = diagnostics(CONFLICT, &checked(CONFLICT));
    let mut ranges: Vec<(u32, u32, u32, u32)> = diags
        .iter()
        .map(|d| (d.range.start.line, d.range.start.character, d.range.end.line, d.range.end.character))
        .collect();
    ranges.sort();
    assert_eq!(ranges, vec![(6, 7, 6, 10), (9, 12, 9, 15)]);
    assert!(diags.iter().all(|d| d.source == "nucleus"));
}

#[test]
fn hover_range_and_heading_are_exact() {
    let h = hover(CONFLICT, pos(6, 8)).unwrap();
    assert_eq!(h.range.start, pos(6, 7));
    assert_eq!(h.range.end, pos(6, 10));
    assert!(h.markdown.starts_with("**PA5** — Port A, pin 5\n\nAlternate functions:\n- `AF1` — TIM2_CH1\n"));
    assert!(h.markdown.ends_with("\n"));
}

#[test]
fn hover_on_an_unknown_pin_is_none() {
    // `PA16` names no pin; `PZ1` has no port.
    let text = "x = \"PA16\"\ny = \"PZ1\"\n";
    assert!(hover(text, pos(0, 6)).is_none());
    assert!(hover(text, pos(1, 6)).is_none());
}

#[test]
fn positions_count_utf16_units() {
    // "é" is two bytes and one UTF-16 unit; the pin after it starts at column 6.
    let text = "# é\nx = \"PA5\"\n";
    let h = hover(text, pos(1, 6)).unwrap();
    assert_eq!(h.range.start, pos(1, 5));
    assert_eq!(h.range.end, pos(1, 8));
}

#[test]
fn completion_items_are_in_pin_order_with_details() {
    let text = "[peripherals.spi1]\nmosi = \"\"\n";
    let items = completion(text, pos(1, 8));
    assert_eq!(items[0].label, "PA0");
    let pa7 = items.iter().find(|i| i.label == "PA7").unwrap();
    assert!(pa7.detail.ends_with(" alternate function(s)"));
    assert!(pa7.documentation.contains("AF5 SPI1_MOSI"));
    assert!(pa7.documentation.contains(", "));
}

#[test]
fn no_completion_before_the_equals_sign() {
    let text = "[peripherals.spi1]\nmosi = \"\"\n";
    assert!(completion(text, pos(1, 2)).is_empty());
}

#[test]
fn syntax_error_without_span_marks_the_first_byte() {
    let failure = ParseFailure { span: None, message: "broken".to_string() };
    let diags = diagnostics("abc", &Err(failure));
    assert_eq!(diags.len(), 1);
    assert_eq!(diags[0].range.start, pos(0, 0));
    assert_eq!(diags[0].range.end, pos(0, 1));
    assert_eq!(diags[0].message, "broken");
}
