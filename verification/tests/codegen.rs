use nucleus::compiler::codegen::{dma_priority_macro, generate, spi_mode, timers_fit_check, Generated};
use nucleus::compiler::config::{Config, ConfigValue, Peripheral};
use nucleus::db::Database;

fn table(entries: &[(&str, ConfigValue)]) -> Peripheral {
    let mut p = Peripheral::new();
    for (k, v) in entries {
        p.0.push((k.to_string(), v.clone()));
    }
    p
}

fn s(v: &str) -> ConfigValue {
    ConfigValue::String(v.to_string())
}

fn num(v: i64) -> ConfigValue {
    ConfigValue::Integer(v)
}

fn config(family: &str, clock_hz: Option<u64>, peripherals: Vec<(&str, Peripheral)>) -> Config {
    let mut c = Config::default();
    c.device.family = family.to_string();
    c.device.clock_hz = clock_hz;
    let mut ps: Vec<(String, Peripheral)> = peripherals.into_iter().map(|(k, v)| (k.to_string(), v)).collect();
    ps.sort_by(|a, b| a.0.cmp(&b.0));
    c.peripherals = ps;
    c
}

fn gen(c: &Config) -> Generated {
    generate(c, &Database::f446re())
}

/// The example project: one of each modelled kind.
fn example() -> Config {
    config(
        "STM32F446RE",
        Some(180_000_000),
        vec![
            ("usart2", table(&[("tx", s("PA2")), ("rx", s("PA3")), ("baud", num(115200))])),
            (
                "spi1",
                table(&[("mosi", s("PA7")), ("miso", s("PA6")), ("sck", s("PA5")), ("nss", s("PA4")), ("mode", num(0))]),
            ),
            ("i2c1", table(&[("sda", s("PB9")), ("scl", s("PB8")), ("speed", s("fast"))])),
            ("tim2", table(&[("channel1", s("PA0")), ("frequency_hz", num(1000)), ("duty_resolution_bits", num(16))])),
        ],
    )
}

#[test]
fn header_declares_handles_and_prototype() {
    let g = gen(&example());
    assert!(g.config_h.contains("extern UART_HandleTypeDef huart2;"));
    assert!(g.config_h.contains("typedef struct {"));
    assert!(g.config_h.contains("void Nucleus_Init(void);"));
    assert!(g.config_h.contains("#ifndef NUCLEUS_CONFIG_H"));
}

#[test]
fn init_calls_stock_hal_init_functions() {
    let g = gen(&example());
    for call in ["HAL_UART_Init(&huart2);", "HAL_SPI_Init(&hspi1);", "HAL_I2C_Init(&hi2c1);", "HAL_TIM_PWM_Init(&htim2);"] {
        assert!(g.init_c.contains(call), "missing {call}\n{}", g.init_c);
    }
    assert_eq!(g.init_c.matches("void Nucleus_Init(void)").count(), 1);
}

#[test]
fn gpio_uses_af_numbers_from_database() {
    let g = gen(&example());
    assert!(g.init_c.contains("GPIO_InitStruct.Pin = GPIO_PIN_2;"));
    assert!(g.init_c.contains("GPIO_AF7_USART2;"));
    assert!(g.init_c.contains("GPIO_AF5_SPI1;"));
    assert!(g.init_c.contains("GPIO_AF4_I2C1;"));
}

#[test]
fn enables_each_gpio_port_clock_once() {
    let g = gen(&example());
    assert_eq!(g.init_c.matches("__HAL_RCC_GPIOA_CLK_ENABLE();").count(), 1);
    assert_eq!(g.init_c.matches("__HAL_RCC_GPIOB_CLK_ENABLE();").count(), 1);
}

#[test]
fn i2c_pins_are_open_drain_with_pullups() {
    let g = gen(&example());
    assert!(g.init_c.contains("GPIO_MODE_AF_OD"));
    assert!(g.init_c.contains("GPIO_PULLUP"));
}

#[test]
fn resolved_params_land_in_config_structs() {
    let g = gen(&example());
    assert!(g.init_c.contains(".BaudRate = 115200u,"));
    assert!(g.init_c.contains(".ClockSpeed = 400000u,"));
    assert!(g.init_c.contains(".CLKPolarity = SPI_POLARITY_LOW,"));
}

#[test]
fn output_is_deterministic() {
    assert_eq!(gen(&example()), gen(&example()));
}

#[test]
fn empty_config_still_emits_valid_init() {
    let g = gen(&config("STM32F446RE", None, vec![]));
    assert!(g.init_c.contains("void Nucleus_Init(void)"));
    assert!(g.config_h.contains("void Nucleus_Init(void);"));
}

#[test]
fn irq_true_emits_nvic_enable_and_priority() {
    let c = config(
        "",
        None,
        vec![("usart2", table(&[("tx", s("PA2")), ("rx", s("PA3")), ("irq", ConfigValue::Boolean(true)), ("irq_priority", num(5))]))],
    );
    let g = gen(&c);
    assert!(g.init_c.contains("HAL_NVIC_SetPriority(USART2_IRQn, 5, 0);"));
    assert!(g.init_c.contains("HAL_NVIC_EnableIRQ(USART2_IRQn);"));
}

#[test]
fn irq_false_emits_no_nvic_calls() {
    let c = config("", None, vec![("usart2", table(&[("tx", s("PA2")), ("rx", s("PA3")), ("irq", ConfigValue::Boolean(false))]))]);
    let g = gen(&c);
    assert!(!g.init_c.contains("HAL_NVIC"));
}

#[test]
fn i2c_irq_emits_both_event_and_error_vectors() {
    let c = config("", None, vec![("i2c1", table(&[("sda", s("PB9")), ("scl", s("PB8")), ("irq", ConfigValue::Boolean(true))]))]);
    let g = gen(&c);
    assert!(g.init_c.contains("HAL_NVIC_EnableIRQ(I2C1_EV_IRQn);"));
    assert!(g.init_c.contains("HAL_NVIC_EnableIRQ(I2C1_ER_IRQn);"));
}

#[test]
fn dma_true_emits_hal_dma_init_and_link_for_both_directions() {
    let c = config("", None, vec![("usart2", table(&[("tx", s("PA2")), ("rx", s("PA3")), ("dma", ConfigValue::Boolean(true))]))]);
    let g = gen(&c);
    assert!(g.init_c.contains("HAL_DMA_Init(&hdma_usart2_tx);"));
    assert!(g.init_c.contains("HAL_DMA_Init(&hdma_usart2_rx);"));
    assert!(g.init_c.contains("__HAL_LINKDMA(&huart2, hdmatx, hdma_usart2_tx);"));
    assert!(g.init_c.contains("__HAL_LINKDMA(&huart2, hdmarx, hdma_usart2_rx);"));
    assert!(g.init_c.contains("hdma_usart2_tx.Init.Direction = DMA_MEMORY_TO_PERIPH;"));
    assert!(g.init_c.contains("hdma_usart2_rx.Init.Direction = DMA_PERIPH_TO_MEMORY;"));
    assert!(g.config_h.contains("extern DMA_HandleTypeDef hdma_usart2_tx;"));
}

fn rx_only() -> Config {
    config(
        "",
        None,
        vec![("usart2", table(&[("tx", s("PA2")), ("rx", s("PA3")), ("dma", ConfigValue::Array(vec!["rx".to_string()]))]))],
    )
}

#[test]
fn dma_rx_only_emits_single_stream() {
    let g = gen(&rx_only());
    assert!(g.init_c.contains("HAL_DMA_Init(&hdma_usart2_rx);"));
    assert!(!g.init_c.contains("hdma_usart2_tx"));
}

#[test]
fn dma_assigns_resolved_stream_and_channel() {
    let g = gen(&rx_only());
    assert!(g.init_c.contains("hdma_usart2_rx.Instance = DMA1_Stream5;"));
    assert!(g.init_c.contains("hdma_usart2_rx.Init.Channel = DMA_CHANNEL_4;"));
    assert!(g.init_c.contains("__HAL_RCC_DMA1_CLK_ENABLE();"));
}

#[test]
fn tim_does_not_emit_dma_init() {
    let c = config("", None, vec![("tim2", table(&[("channel1", s("PA0")), ("dma", ConfigValue::Boolean(true))]))]);
    let g = gen(&c);
    assert!(!g.init_c.contains("HAL_DMA_Init"));
}

#[test]
fn no_irq_or_dma_opt_in_emits_neither() {
    let g = gen(&example());
    assert!(!g.init_c.contains("HAL_NVIC"));
    assert!(!g.init_c.contains("HAL_DMA_Init"));
}

#[test]
fn tim_timing_lands_in_config_struct() {
    // 180 MHz / (1000 Hz * 65536) = 2 (integer), minus one.
    let g = gen(&example());
    assert!(g.init_c.contains("    .Prescaler = 1u,\n    .Period = 65535u,\n"), "{}", g.init_c);
}

#[test]
fn tim_prescaler_floors_at_zero() {
    let c = config(
        "",
        Some(1000),
        vec![("tim3", table(&[("channel1", s("PA6")), ("frequency_hz", num(1000)), ("duty_resolution_bits", num(40))]))],
    );
    let g = gen(&c);
    assert!(g.init_c.contains("    .Prescaler = 0u,\n    .Period = 2147483647u,\n"), "{}", g.init_c);
}

#[test]
fn spi_modes_map_to_polarity_and_phase() {
    assert_eq!(spi_mode(0), ("SPI_POLARITY_LOW", "SPI_PHASE_1EDGE"));
    assert_eq!(spi_mode(1), ("SPI_POLARITY_LOW", "SPI_PHASE_2EDGE"));
    assert_eq!(spi_mode(2), ("SPI_POLARITY_HIGH", "SPI_PHASE_1EDGE"));
    assert_eq!(spi_mode(3), ("SPI_POLARITY_HIGH", "SPI_PHASE_2EDGE"));
    assert_eq!(spi_mode(7), ("SPI_POLARITY_LOW", "SPI_PHASE_1EDGE"));
}

#[test]
fn dma_priorities_map_to_macros() {
    assert_eq!(dma_priority_macro(0), "DMA_PRIORITY_LOW");
    assert_eq!(dma_priority_macro(1), "DMA_PRIORITY_MEDIUM");
    assert_eq!(dma_priority_macro(2), "DMA_PRIORITY_HIGH");
    assert_eq!(dma_priority_macro(3), "DMA_PRIORITY_VERY_HIGH");
    assert_eq!(dma_priority_macro(-1), "DMA_PRIORITY_VERY_HIGH");
}

#[test]
fn i2c_speed_is_case_insensitive_and_defaults_to_standard() {
    let fast = config("", None, vec![("i2c1", table(&[("sda", s("PB9")), ("scl", s("PB8")), ("speed", s("FAST"))]))]);
    assert!(gen(&fast).init_c.contains(".ClockSpeed = 400000u,"));
    let std_ = config("", None, vec![("i2c1", table(&[("sda", s("PB9")), ("scl", s("PB8"))]))]);
    assert!(gen(&std_).init_c.contains(".ClockSpeed = 100000u,"));
}

#[test]
fn unmodelled_kinds_and_unresolved_pins_are_skipped() {
    let c = config(
        "",
        None,
        vec![
            ("adc1", table(&[("in0", s("PA0"))])),
            ("usart2", table(&[("tx", s("PA2")), ("rx", s("PB7"))])),
        ],
    );
    let g = gen(&c);
    assert!(!g.init_c.contains("ADC1"));
    assert!(g.init_c.contains("GPIO_AF7_USART2;"));
    assert_eq!(g.init_c.matches("HAL_GPIO_Init(").count(), 1);
}

#[test]
fn header_block_for_usart_is_exact() {
    let c = config("", None, vec![("usart2", table(&[("tx", s("PA2"))]))]);
    let g = gen(&c);
    assert!(g.config_h.contains(
        "/* USART2 \u{2014} resolved configuration */\ntypedef struct {\n    uint32_t BaudRate;\n} Nucleus_USART2_Config;\nextern UART_HandleTypeDef huart2;\n\n"
    ));
    assert!(g.init_c.contains("static const Nucleus_USART2_Config usart2_config = {\n    .BaudRate = 115200u,\n};\n\n"));
}

#[test]
fn oversized_timer_divisor_is_reported() {
    assert!(timers_fit_check(&example()));
    let c = config("", None, vec![("tim2", table(&[("frequency_hz", num(i64::MAX)), ("duty_resolution_bits", num(31))]))]);
    assert!(!timers_fit_check(&c));
    let not_timer = config("", None, vec![("usart2", table(&[("frequency_hz", num(i64::MAX)), ("duty_resolution_bits", num(31))]))]);
    assert!(timers_fit_check(&not_timer));
}
