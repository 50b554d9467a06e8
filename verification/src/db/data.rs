//! The compiled-in alternate-function tables of the supported families and
//! the datasheet-verified seed entries they are cross-checked against.

use vstd::prelude::*;
use super::{AfMapping, Pin, Port};

verus! {

/// The STM32F446RE (LQFP64) alternate-function table, sorted by (pin, AF).
pub open spec fn f446re_table() -> Seq<AfMapping> {
    seq![
        AfMapping { pin: Pin { port: Port::A, number: 0 }, af: 1, peripheral: "TIM2", signal: "CH1" },
        AfMapping { pin: Pin { port: Port::A, number: 0 }, af: 1, peripheral: "TIM2", signal: "ETR" },
        AfMapping { pin: Pin { port: Port::A, number: 0 }, af: 2, peripheral: "TIM5", signal: "CH1" },
        AfMapping { pin: Pin { port: Port::A, number: 0 }, af: 3, peripheral: "TIM8", signal: "ETR" },
        AfMapping { pin: Pin { port: Port::A, number: 0 }, af: 7, peripheral: "USART2", signal: "CTS" },
        AfMapping { pin: Pin { port: Port::A, number: 0 }, af: 8, peripheral: "UART4", signal: "TX" },
        AfMapping { pin: Pin { port: Port::A, number: 1 }, af: 1, peripheral: "TIM2", signal: "CH2" },
        AfMapping { pin: Pin { port: Port::A, number: 1 }, af: 2, peripheral: "TIM5", signal: "CH2" },
        AfMapping { pin: Pin { port: Port::A, number: 1 }, af: 7, peripheral: "USART2", signal: "RTS" },
        AfMapping { pin: Pin { port: Port::A, number: 1 }, af: 8, peripheral: "UART4", signal: "RX" },
        AfMapping { pin: Pin { port: Port::A, number: 2 }, af: 1, peripheral: "TIM2", signal: "CH3" },
        AfMapping { pin: Pin { port: Port::A, number: 2 }, af: 2, peripheral: "TIM5", signal: "CH3" },
        AfMapping { pin: Pin { port: Port::A, number: 2 }, af: 3, peripheral: "TIM9", signal: "CH1" },
        AfMapping { pin: Pin { port: Port::A, number: 2 }, af: 7, peripheral: "USART2", signal: "TX" },
        AfMapping { pin: Pin { port: Port::A, number: 3 }, af: 1, peripheral: "TIM2", signal: "CH4" },
        AfMapping { pin: Pin { port: Port::A, number: 3 }, af: 2, peripheral: "TIM5", signal: "CH4" },
        AfMapping { pin: Pin { port: Port::A, number: 3 }, af: 3, peripheral: "TIM9", signal: "CH2" },
        AfMapping { pin: Pin { port: Port::A, number: 3 }, af: 7, peripheral: "USART2", signal: "RX" },
        AfMapping { pin: Pin { port: Port::A, number: 4 }, af: 5, peripheral: "I2S1", signal: "WS" },
        AfMapping { pin: Pin { port: Port::A, number: 4 }, af: 5, peripheral: "SPI1", signal: "NSS" },
        AfMapping { pin: Pin { port: Port::A, number: 4 }, af: 6, peripheral: "SPI3", signal: "NSS" },
        AfMapping { pin: Pin { port: Port::A, number: 4 }, af: 7, peripheral: "USART2", signal: "CK" },
        AfMapping { pin: Pin { port: Port::A, number: 5 }, af: 1, peripheral: "TIM2", signal: "CH1" },
        AfMapping { pin: Pin { port: Port::A, number: 5 }, af: 1, peripheral: "TIM2", signal: "ETR" },
        AfMapping { pin: Pin { port: Port::A, number: 5 }, af: 3, peripheral: "TIM8", signal: "CH1N" },
        AfMapping { pin: Pin { port: Port::A, number: 5 }, af: 5, peripheral: "SPI1", signal: "SCK" },
        AfMapping { pin: Pin { port: Port::A, number: 6 }, af: 1, peripheral: "TIM1", signal: "BKIN" },
        AfMapping { pin: Pin { port: Port::A, number: 6 }, af: 2, peripheral: "TIM3", signal: "CH1" },
        AfMapping { pin: Pin { port: Port::A, number: 6 }, af: 3, peripheral: "TIM8", signal: "BKIN" },
        AfMapping { pin: Pin { port: Port::A, number: 6 }, af: 5, peripheral: "SPI1", signal: "MISO" },
        AfMapping { pin: Pin { port: Port::A, number: 6 }, af: 9, peripheral: "TIM13", signal: "CH1" },
        AfMapping { pin: Pin { port: Port::A, number: 7 }, af: 1, peripheral: "TIM1", signal: "CH1N" },
        AfMapping { pin: Pin { port: Port::A, number: 7 }, af: 2, peripheral: "TIM3", signal: "CH2" },
        AfMapping { pin: Pin { port: Port::A, number: 7 }, af: 3, peripheral: "TIM8", signal: "CH1N" },
        AfMapping { pin: Pin { port: Port::A, number: 7 }, af: 5, peripheral: "SPI1", signal: "MOSI" },
        AfMapping { pin: Pin { port: Port::A, number: 7 }, af: 9, peripheral: "TIM14", signal: "CH1" },
        AfMapping { pin: Pin { port: Port::A, number: 8 }, af: 0, peripheral: "RCC", signal: "MCO_1" },
        AfMapping { pin: Pin { port: Port::A, number: 8 }, af: 1, peripheral: "TIM1", signal: "CH1" },
        AfMapping { pin: Pin { port: Port::A, number: 8 }, af: 4, peripheral: "I2C3", signal: "SCL" },
        AfMapping { pin: Pin { port: Port::A, number: 8 }, af: 7, peripheral: "USART1", signal: "CK" },
        AfMapping { pin: Pin { port: Port::A, number: 9 }, af: 1, peripheral: "TIM1", signal: "CH2" },
        AfMapping { pin: Pin { port: Port::A, number: 9 }, af: 4, peripheral: "I2C3", signal: "SMBA" },
        AfMapping { pin: Pin { port: Port::A, number: 9 }, af: 5, peripheral: "SPI2", signal: "SCK" },
        AfMapping { pin: Pin { port: Port::A, number: 9 }, af: 7, peripheral: "USART1", signal: "TX" },
        AfMapping { pin: Pin { port: Port::A, number: 10 }, af: 1, peripheral: "TIM1", signal: "CH3" },
        AfMapping { pin: Pin { port: Port::A, number: 10 }, af: 7, peripheral: "USART1", signal: "RX" },
        AfMapping { pin: Pin { port: Port::A, number: 11 }, af: 1, peripheral: "TIM1", signal: "CH4" },
        AfMapping { pin: Pin { port: Port::A, number: 11 }, af: 7, peripheral: "USART1", signal: "CTS" },
        AfMapping { pin: Pin { port: Port::A, number: 11 }, af: 9, peripheral: "CAN1", signal: "RX" },
        AfMapping { pin: Pin { port: Port::A, number: 12 }, af: 1, peripheral: "TIM1", signal: "ETR" },
        AfMapping { pin: Pin { port: Port::A, number: 12 }, af: 7, peripheral: "USART1", signal: "RTS" },
        AfMapping { pin: Pin { port: Port::A, number: 12 }, af: 9, peripheral: "CAN1", signal: "TX" },
        AfMapping { pin: Pin { port: Port::A, number: 13 }, af: 0, peripheral: "SYS", signal: "JTMS-SWDIO" },
        AfMapping { pin: Pin { port: Port::A, number: 14 }, af: 0, peripheral: "SYS", signal: "JTCK-SWCLK" },
        AfMapping { pin: Pin { port: Port::A, number: 15 }, af: 0, peripheral: "SYS", signal: "JTDI" },
        AfMapping { pin: Pin { port: Port::A, number: 15 }, af: 1, peripheral: "TIM2", signal: "CH1" },
        AfMapping { pin: Pin { port: Port::A, number: 15 }, af: 1, peripheral: "TIM2", signal: "ETR" },
        AfMapping { pin: Pin { port: Port::A, number: 15 }, af: 4, peripheral: "CEC", signal: "CEC" },
        AfMapping { pin: Pin { port: Port::A, number: 15 }, af: 5, peripheral: "SPI1", signal: "NSS" },
        AfMapping { pin: Pin { port: Port::A, number: 15 }, af: 6, peripheral: "SPI3", signal: "NSS" },
        AfMapping { pin: Pin { port: Port::A, number: 15 }, af: 8, peripheral: "UART4", signal: "RTS" },
        AfMapping { pin: Pin { port: Port::B, number: 0 }, af: 1, peripheral: "TIM1", signal: "CH2N" },
        AfMapping { pin: Pin { port: Port::B, number: 0 }, af: 2, peripheral: "TIM3", signal: "CH3" },
        AfMapping { pin: Pin { port: Port::B, number: 0 }, af: 3, peripheral: "TIM8", signal: "CH2N" },
        AfMapping { pin: Pin { port: Port::B, number: 0 }, af: 6, peripheral: "SPI3", signal: "MOSI" },
        AfMapping { pin: Pin { port: Port::B, number: 0 }, af: 7, peripheral: "UART4", signal: "CTS" },
        AfMapping { pin: Pin { port: Port::B, number: 1 }, af: 1, peripheral: "TIM1", signal: "CH3N" },
        AfMapping { pin: Pin { port: Port::B, number: 1 }, af: 2, peripheral: "TIM3", signal: "CH4" },
        AfMapping { pin: Pin { port: Port::B, number: 1 }, af: 3, peripheral: "TIM8", signal: "CH3N" },
        AfMapping { pin: Pin { port: Port::B, number: 2 }, af: 1, peripheral: "TIM2", signal: "CH4" },
        AfMapping { pin: Pin { port: Port::B, number: 2 }, af: 6, peripheral: "SAI1", signal: "SD_A" },
        AfMapping { pin: Pin { port: Port::B, number: 2 }, af: 7, peripheral: "SPI3", signal: "MOSI" },
        AfMapping { pin: Pin { port: Port::B, number: 3 }, af: 0, peripheral: "SYS", signal: "JTDO-SWO" },
        AfMapping { pin: Pin { port: Port::B, number: 3 }, af: 1, peripheral: "TIM2", signal: "CH2" },
        AfMapping { pin: Pin { port: Port::B, number: 3 }, af: 4, peripheral: "I2C2", signal: "SDA" },
        AfMapping { pin: Pin { port: Port::B, number: 3 }, af: 5, peripheral: "SPI1", signal: "SCK" },
        AfMapping { pin: Pin { port: Port::B, number: 3 }, af: 6, peripheral: "SPI3", signal: "SCK" },
        AfMapping { pin: Pin { port: Port::B, number: 4 }, af: 0, peripheral: "SYS", signal: "JTRST" },
        AfMapping { pin: Pin { port: Port::B, number: 4 }, af: 2, peripheral: "TIM3", signal: "CH1" },
        AfMapping { pin: Pin { port: Port::B, number: 4 }, af: 5, peripheral: "SPI1", signal: "MISO" },
        AfMapping { pin: Pin { port: Port::B, number: 4 }, af: 6, peripheral: "SPI3", signal: "MISO" },
        AfMapping { pin: Pin { port: Port::B, number: 4 }, af: 7, peripheral: "SPI2", signal: "NSS" },
        AfMapping { pin: Pin { port: Port::B, number: 5 }, af: 2, peripheral: "TIM3", signal: "CH2" },
        AfMapping { pin: Pin { port: Port::B, number: 5 }, af: 4, peripheral: "I2C1", signal: "SMBA" },
        AfMapping { pin: Pin { port: Port::B, number: 5 }, af: 5, peripheral: "SPI1", signal: "MOSI" },
        AfMapping { pin: Pin { port: Port::B, number: 5 }, af: 6, peripheral: "SPI3", signal: "MOSI" },
        AfMapping { pin: Pin { port: Port::B, number: 5 }, af: 9, peripheral: "CAN2", signal: "RX" },
        AfMapping { pin: Pin { port: Port::B, number: 6 }, af: 2, peripheral: "TIM4", signal: "CH1" },
        AfMapping { pin: Pin { port: Port::B, number: 6 }, af: 4, peripheral: "I2C1", signal: "SCL" },
        AfMapping { pin: Pin { port: Port::B, number: 6 }, af: 7, peripheral: "USART1", signal: "TX" },
        AfMapping { pin: Pin { port: Port::B, number: 6 }, af: 9, peripheral: "CAN2", signal: "TX" },
        AfMapping { pin: Pin { port: Port::B, number: 7 }, af: 2, peripheral: "TIM4", signal: "CH2" },
        AfMapping { pin: Pin { port: Port::B, number: 7 }, af: 4, peripheral: "I2C1", signal: "SDA" },
        AfMapping { pin: Pin { port: Port::B, number: 7 }, af: 7, peripheral: "USART1", signal: "RX" },
        AfMapping { pin: Pin { port: Port::B, number: 8 }, af: 2, peripheral: "TIM4", signal: "CH3" },
        AfMapping { pin: Pin { port: Port::B, number: 8 }, af: 3, peripheral: "TIM10", signal: "CH1" },
        AfMapping { pin: Pin { port: Port::B, number: 8 }, af: 4, peripheral: "I2C1", signal: "SCL" },
        AfMapping { pin: Pin { port: Port::B, number: 8 }, af: 9, peripheral: "CAN1", signal: "RX" },
        AfMapping { pin: Pin { port: Port::B, number: 9 }, af: 2, peripheral: "TIM4", signal: "CH4" },
        AfMapping { pin: Pin { port: Port::B, number: 9 }, af: 3, peripheral: "TIM11", signal: "CH1" },
        AfMapping { pin: Pin { port: Port::B, number: 9 }, af: 4, peripheral: "I2C1", signal: "SDA" },
        AfMapping { pin: Pin { port: Port::B, number: 9 }, af: 5, peripheral: "SPI2", signal: "NSS" },
        AfMapping { pin: Pin { port: Port::B, number: 9 }, af: 9, peripheral: "CAN1", signal: "TX" },
        AfMapping { pin: Pin { port: Port::B, number: 10 }, af: 1, peripheral: "TIM2", signal: "CH3" },
        AfMapping { pin: Pin { port: Port::B, number: 10 }, af: 4, peripheral: "I2C2", signal: "SCL" },
        AfMapping { pin: Pin { port: Port::B, number: 10 }, af: 5, peripheral: "SPI2", signal: "SCK" },
        AfMapping { pin: Pin { port: Port::B, number: 10 }, af: 7, peripheral: "USART3", signal: "TX" },
        AfMapping { pin: Pin { port: Port::B, number: 12 }, af: 1, peripheral: "TIM1", signal: "BKIN" },
        AfMapping { pin: Pin { port: Port::B, number: 12 }, af: 4, peripheral: "I2C2", signal: "SMBA" },
        AfMapping { pin: Pin { port: Port::B, number: 12 }, af: 5, peripheral: "SPI2", signal: "NSS" },
        AfMapping { pin: Pin { port: Port::B, number: 12 }, af: 7, peripheral: "USART3", signal: "CK" },
        AfMapping { pin: Pin { port: Port::B, number: 12 }, af: 9, peripheral: "CAN2", signal: "RX" },
        AfMapping { pin: Pin { port: Port::B, number: 13 }, af: 1, peripheral: "TIM1", signal: "CH1N" },
        AfMapping { pin: Pin { port: Port::B, number: 13 }, af: 5, peripheral: "SPI2", signal: "SCK" },
        AfMapping { pin: Pin { port: Port::B, number: 13 }, af: 7, peripheral: "USART3", signal: "CTS" },
        AfMapping { pin: Pin { port: Port::B, number: 13 }, af: 9, peripheral: "CAN2", signal: "TX" },
        AfMapping { pin: Pin { port: Port::B, number: 14 }, af: 1, peripheral: "TIM1", signal: "CH2N" },
        AfMapping { pin: Pin { port: Port::B, number: 14 }, af: 3, peripheral: "TIM8", signal: "CH2N" },
        AfMapping { pin: Pin { port: Port::B, number: 14 }, af: 5, peripheral: "SPI2", signal: "MISO" },
        AfMapping { pin: Pin { port: Port::B, number: 14 }, af: 7, peripheral: "USART3", signal: "RTS" },
        AfMapping { pin: Pin { port: Port::B, number: 14 }, af: 9, peripheral: "TIM12", signal: "CH1" },
        AfMapping { pin: Pin { port: Port::B, number: 15 }, af: 1, peripheral: "TIM1", signal: "CH3N" },
        AfMapping { pin: Pin { port: Port::B, number: 15 }, af: 3, peripheral: "TIM8", signal: "CH3N" },
        AfMapping { pin: Pin { port: Port::B, number: 15 }, af: 5, peripheral: "SPI2", signal: "MOSI" },
        AfMapping { pin: Pin { port: Port::B, number: 15 }, af: 9, peripheral: "TIM12", signal: "CH2" },
        AfMapping { pin: Pin { port: Port::C, number: 1 }, af: 5, peripheral: "SPI3", signal: "MOSI" },
        AfMapping { pin: Pin { port: Port::C, number: 1 }, af: 7, peripheral: "SPI2", signal: "MOSI" },
        AfMapping { pin: Pin { port: Port::C, number: 2 }, af: 5, peripheral: "SPI2", signal: "MISO" },
        AfMapping { pin: Pin { port: Port::C, number: 3 }, af: 5, peripheral: "SPI2", signal: "MOSI" },
        AfMapping { pin: Pin { port: Port::C, number: 5 }, af: 7, peripheral: "USART3", signal: "RX" },
        AfMapping { pin: Pin { port: Port::C, number: 6 }, af: 2, peripheral: "TIM3", signal: "CH1" },
        AfMapping { pin: Pin { port: Port::C, number: 6 }, af: 3, peripheral: "TIM8", signal: "CH1" },
        AfMapping { pin: Pin { port: Port::C, number: 6 }, af: 8, peripheral: "USART6", signal: "TX" },
        AfMapping { pin: Pin { port: Port::C, number: 7 }, af: 2, peripheral: "TIM3", signal: "CH2" },
        AfMapping { pin: Pin { port: Port::C, number: 7 }, af: 3, peripheral: "TIM8", signal: "CH2" },
        AfMapping { pin: Pin { port: Port::C, number: 7 }, af: 5, peripheral: "SPI2", signal: "SCK" },
        AfMapping { pin: Pin { port: Port::C, number: 7 }, af: 8, peripheral: "USART6", signal: "RX" },
        AfMapping { pin: Pin { port: Port::C, number: 8 }, af: 2, peripheral: "TIM3", signal: "CH3" },
        AfMapping { pin: Pin { port: Port::C, number: 8 }, af: 3, peripheral: "TIM8", signal: "CH3" },
        AfMapping { pin: Pin { port: Port::C, number: 8 }, af: 8, peripheral: "USART6", signal: "CK" },
        AfMapping { pin: Pin { port: Port::C, number: 9 }, af: 0, peripheral: "RCC", signal: "MCO_2" },
        AfMapping { pin: Pin { port: Port::C, number: 9 }, af: 2, peripheral: "TIM3", signal: "CH4" },
        AfMapping { pin: Pin { port: Port::C, number: 9 }, af: 3, peripheral: "TIM8", signal: "CH4" },
        AfMapping { pin: Pin { port: Port::C, number: 9 }, af: 4, peripheral: "I2C3", signal: "SDA" },
        AfMapping { pin: Pin { port: Port::C, number: 10 }, af: 6, peripheral: "SPI3", signal: "SCK" },
        AfMapping { pin: Pin { port: Port::C, number: 10 }, af: 7, peripheral: "USART3", signal: "TX" },
        AfMapping { pin: Pin { port: Port::C, number: 10 }, af: 8, peripheral: "UART4", signal: "TX" },
        AfMapping { pin: Pin { port: Port::C, number: 11 }, af: 6, peripheral: "SPI3", signal: "MISO" },
        AfMapping { pin: Pin { port: Port::C, number: 11 }, af: 7, peripheral: "USART3", signal: "RX" },
        AfMapping { pin: Pin { port: Port::C, number: 11 }, af: 8, peripheral: "UART4", signal: "RX" },
        AfMapping { pin: Pin { port: Port::C, number: 12 }, af: 6, peripheral: "SPI3", signal: "MOSI" },
        AfMapping { pin: Pin { port: Port::C, number: 12 }, af: 7, peripheral: "USART3", signal: "CK" },
        AfMapping { pin: Pin { port: Port::C, number: 12 }, af: 8, peripheral: "UART5", signal: "TX" },
        AfMapping { pin: Pin { port: Port::D, number: 2 }, af: 2, peripheral: "TIM3", signal: "ETR" },
        AfMapping { pin: Pin { port: Port::D, number: 2 }, af: 8, peripheral: "UART5", signal: "RX" },
    ]
}

/// The STM32F446RE (LQFP64) alternate-function table, sorted by (pin, AF).
pub fn f446re_entries() -> (r: &'static [AfMapping])
    ensures
        r@ == f446re_table(),
{
    &[
        AfMapping { pin: Pin { port: Port::A, number: 0 }, af: 1, peripheral: "TIM2", signal: "CH1" },
        AfMapping { pin: Pin { port: Port::A, number: 0 }, af: 1, peripheral: "TIM2", signal: "ETR" },
        AfMapping { pin: Pin { port: Port::A, number: 0 }, af: 2, peripheral: "TIM5", signal: "CH1" },
        AfMapping { pin: Pin { port: Port::A, number: 0 }, af: 3, peripheral: "TIM8", signal: "ETR" },
        AfMapping { pin: Pin { port: Port::A, number: 0 }, af: 7, peripheral: "USART2", signal: "CTS" },
        AfMapping { pin: Pin { port: Port::A, number: 0 }, af: 8, peripheral: "UART4", signal: "TX" },
        AfMapping { pin: Pin { port: Port::A, number: 1 }, af: 1, peripheral: "TIM2", signal: "CH2" },
        AfMapping { pin: Pin { port: Port::A, number: 1 }, af: 2, peripheral: "TIM5", signal: "CH2" },
        AfMapping { pin: Pin { port: Port::A, number: 1 }, af: 7, peripheral: "USART2", signal: "RTS" },
        AfMapping { pin: Pin { port: Port::A, number: 1 }, af: 8, peripheral: "UART4", signal: "RX" },
        AfMapping { pin: Pin { port: Port::A, number: 2 }, af: 1, peripheral: "TIM2", signal: "CH3" },
        AfMapping { pin: Pin { port: Port::A, number: 2 }, af: 2, peripheral: "TIM5", signal: "CH3" },
        AfMapping { pin: Pin { port: Port::A, number: 2 }, af: 3, peripheral: "TIM9", signal: "CH1" },
        AfMapping { pin: Pin { port: Port::A, number: 2 }, af: 7, peripheral: "USART2", signal: "TX" },
        AfMapping { pin: Pin { port: Port::A, number: 3 }, af: 1, peripheral: "TIM2", signal: "CH4" },
        AfMapping { pin: Pin { port: Port::A, number: 3 }, af: 2, peripheral: "TIM5", signal: "CH4" },
        AfMapping { pin: Pin { port: Port::A, number: 3 }, af: 3, peripheral: "TIM9", signal: "CH2" },
        AfMapping { pin: Pin { port: Port::A, number: 3 }, af: 7, peripheral: "USART2", signal: "RX" },
        AfMapping { pin: Pin { port: Port::A, number: 4 }, af: 5, peripheral: "I2S1", signal: "WS" },
        AfMapping { pin: Pin { port: Port::A, number: 4 }, af: 5, peripheral: "SPI1", signal: "NSS" },
        AfMapping { pin: Pin { port: Port::A, number: 4 }, af: 6, peripheral: "SPI3", signal: "NSS" },
        AfMapping { pin: Pin { port: Port::A, number: 4 }, af: 7, peripheral: "USART2", signal: "CK" },
        AfMapping { pin: Pin { port: Port::A, number: 5 }, af: 1, peripheral: "TIM2", signal: "CH1" },
        AfMapping { pin: Pin { port: Port::A, number: 5 }, af: 1, peripheral: "TIM2", signal: "ETR" },
        AfMapping { pin: Pin { port: Port::A, number: 5 }, af: 3, peripheral: "TIM8", signal: "CH1N" },
        AfMapping { pin: Pin { port: Port::A, number: 5 }, af: 5, peripheral: "SPI1", signal: "SCK" },
        AfMapping { pin: Pin { port: Port::A, number: 6 }, af: 1, peripheral: "TIM1", signal: "BKIN" },
        AfMapping { pin: Pin { port: Port::A, number: 6 }, af: 2, peripheral: "TIM3", signal: "CH1" },
        AfMapping { pin: Pin { port: Port::A, number: 6 }, af: 3, peripheral: "TIM8", signal: "BKIN" },
        AfMapping { pin: Pin { port: Port::A, number: 6 }, af: 5, peripheral: "SPI1", signal: "MISO" },
        AfMapping { pin: Pin { port: Port::A, number: 6 }, af: 9, peripheral: "TIM13", signal: "CH1" },
        AfMapping { pin: Pin { port: Port::A, number: 7 }, af: 1, peripheral: "TIM1", signal: "CH1N" },
        AfMapping { pin: Pin { port: Port::A, number: 7 }, af: 2, peripheral: "TIM3", signal: "CH2" },
        AfMapping { pin: Pin { port: Port::A, number: 7 }, af: 3, peripheral: "TIM8", signal: "CH1N" },
        AfMapping { pin: Pin { port: Port::A, number: 7 }, af: 5, peripheral: "SPI1", signal: "MOSI" },
        AfMapping { pin: Pin { port: Port::A, number: 7 }, af: 9, peripheral: "TIM14", signal: "CH1" },
        AfMapping { pin: Pin { port: Port::A, number: 8 }, af: 0, peripheral: "RCC", signal: "MCO_1" },
        AfMapping { pin: Pin { port: Port::A, number: 8 }, af: 1, peripheral: "TIM1", signal: "CH1" },
        AfMapping { pin: Pin { port: Port::A, number: 8 }, af: 4, peripheral: "I2C3", signal: "SCL" },
        AfMapping { pin: Pin { port: Port::A, number: 8 }, af: 7, peripheral: "USART1", signal: "CK" },
        AfMapping { pin: Pin { port: Port::A, number: 9 }, af: 1, peripheral: "TIM1", signal: "CH2" },
        AfMapping { pin: Pin { port: Port::A, number: 9 }, af: 4, peripheral: "I2C3", signal: "SMBA" },
        AfMapping { pin: Pin { port: Port::A, number: 9 }, af: 5, peripheral: "SPI2", signal: "SCK" },
        AfMapping { pin: Pin { port: Port::A, number: 9 }, af: 7, peripheral: "USART1", signal: "TX" },
        AfMapping { pin: Pin { port: Port::A, number: 10 }, af: 1, peripheral: "TIM1", signal: "CH3" },
        AfMapping { pin: Pin { port: Port::A, number: 10 }, af: 7, peripheral: "USART1", signal: "RX" },
        AfMapping { pin: Pin { port: Port::A, number: 11 }, af: 1, peripheral: "TIM1", signal: "CH4" },
        AfMapping { pin: Pin { port: Port::A, number: 11 }, af: 7, peripheral: "USART1", signal: "CTS" },
        AfMapping { pin: Pin { port: Port::A, number: 11 }, af: 9, peripheral: "CAN1", signal: "RX" },
        AfMapping { pin: Pin { port: Port::A, number: 12 }, af: 1, peripheral: "TIM1", signal: "ETR" },
        AfMapping { pin: Pin { port: Port::A, number: 12 }, af: 7, peripheral: "USART1", signal: "RTS" },
        AfMapping { pin: Pin { port: Port::A, number: 12 }, af: 9, peripheral: "CAN1", signal: "TX" },
        AfMapping { pin: Pin { port: Port::A, number: 13 }, af: 0, peripheral: "SYS", signal: "JTMS-SWDIO" },
        AfMapping { pin: Pin { port: Port::A, number: 14 }, af: 0, peripheral: "SYS", signal: "JTCK-SWCLK" },
        AfMapping { pin: Pin { port: Port::A, number: 15 }, af: 0, peripheral: "SYS", signal: "JTDI" },
        AfMapping { pin: Pin { port: Port::A, number: 15 }, af: 1, peripheral: "TIM2", signal: "CH1" },
        AfMapping { pin: Pin { port: Port::A, number: 15 }, af: 1, peripheral: "TIM2", signal: "ETR" },
        AfMapping { pin: Pin { port: Port::A, number: 15 }, af: 4, peripheral: "CEC", signal: "CEC" },
        AfMapping { pin: Pin { port: Port::A, number: 15 }, af: 5, peripheral: "SPI1", signal: "NSS" },
        AfMapping { pin: Pin { port: Port::A, number: 15 }, af: 6, peripheral: "SPI3", signal: "NSS" },
        AfMapping { pin: Pin { port: Port::A, number: 15 }, af: 8, peripheral: "UART4", signal: "RTS" },
        AfMapping { pin: Pin { port: Port::B, number: 0 }, af: 1, peripheral: "TIM1", signal: "CH2N" },
        AfMapping { pin: Pin { port: Port::B, number: 0 }, af: 2, peripheral: "TIM3", signal: "CH3" },
        AfMapping { pin: Pin { port: Port::B, number: 0 }, af: 3, peripheral: "TIM8", signal: "CH2N" },
        AfMapping { pin: Pin { port: Port::B, number: 0 }, af: 6, peripheral: "SPI3", signal: "MOSI" },
        AfMapping { pin: Pin { port: Port::B, number: 0 }, af: 7, peripheral: "UART4", signal: "CTS" },
        AfMapping { pin: Pin { port: Port::B, number: 1 }, af: 1, peripheral: "TIM1", signal: "CH3N" },
        AfMapping { pin: Pin { port: Port::B, number: 1 }, af: 2, peripheral: "TIM3", signal: "CH4" },
        AfMapping { pin: Pin { port: Port::B, number: 1 }, af: 3, peripheral: "TIM8", signal: "CH3N" },
        AfMapping { pin: Pin { port: Port::B, number: 2 }, af: 1, peripheral: "TIM2", signal: "CH4" },
        AfMapping { pin: Pin { port: Port::B, number: 2 }, af: 6, peripheral: "SAI1", signal: "SD_A" },
        AfMapping { pin: Pin { port: Port::B, number: 2 }, af: 7, peripheral: "SPI3", signal: "MOSI" },
        AfMapping { pin: Pin { port: Port::B, number: 3 }, af: 0, peripheral: "SYS", signal: "JTDO-SWO" },
        AfMapping { pin: Pin { port: Port::B, number: 3 }, af: 1, peripheral: "TIM2", signal: "CH2" },
        AfMapping { pin: Pin { port: Port::B, number: 3 }, af: 4, peripheral: "I2C2", signal: "SDA" },
        AfMapping { pin: Pin { port: Port::B, number: 3 }, af: 5, peripheral: "SPI1", signal: "SCK" },
        AfMapping { pin: Pin { port: Port::B, number: 3 }, af: 6, peripheral: "SPI3", signal: "SCK" },
        AfMapping { pin: Pin { port: Port::B, number: 4 }, af: 0, peripheral: "SYS", signal: "JTRST" },
        AfMapping { pin: Pin { port: Port::B, number: 4 }, af: 2, peripheral: "TIM3", signal: "CH1" },
        AfMapping { pin: Pin { port: Port::B, number: 4 }, af: 5, peripheral: "SPI1", signal: "MISO" },
        AfMapping { pin: Pin { port: Port::B, number: 4 }, af: 6, peripheral: "SPI3", signal: "MISO" },
        AfMapping { pin: Pin { port: Port::B, number: 4 }, af: 7, peripheral: "SPI2", signal: "NSS" },
        AfMapping { pin: Pin { port: Port::B, number: 5 }, af: 2, peripheral: "TIM3", signal: "CH2" },
        AfMapping { pin: Pin { port: Port::B, number: 5 }, af: 4, peripheral: "I2C1", signal: "SMBA" },
        AfMapping { pin: Pin { port: Port::B, number: 5 }, af: 5, peripheral: "SPI1", signal: "MOSI" },
        AfMapping { pin: Pin { port: Port::B, number: 5 }, af: 6, peripheral: "SPI3", signal: "MOSI" },
        AfMapping { pin: Pin { port: Port::B, number: 5 }, af: 9, peripheral: "CAN2", signal: "RX" },
        AfMapping { pin: Pin { port: Port::B, number: 6 }, af: 2, peripheral: "TIM4", signal: "CH1" },
        AfMapping { pin: Pin { port: Port::B, number: 6 }, af: 4, peripheral: "I2C1", signal: "SCL" },
        AfMapping { pin: Pin { port: Port::B, number: 6 }, af: 7, peripheral: "USART1", signal: "TX" },
        AfMapping { pin: Pin { port: Port::B, number: 6 }, af: 9, peripheral: "CAN2", signal: "TX" },
        AfMapping { pin: Pin { port: Port::B, number: 7 }, af: 2, peripheral: "TIM4", signal: "CH2" },
        AfMapping { pin: Pin { port: Port::B, number: 7 }, af: 4, peripheral: "I2C1", signal: "SDA" },
        AfMapping { pin: Pin { port: Port::B, number: 7 }, af: 7, peripheral: "USART1", signal: "RX" },
        AfMapping { pin: Pin { port: Port::B, number: 8 }, af: 2, peripheral: "TIM4", signal: "CH3" },
        AfMapping { pin: Pin { port: Port::B, number: 8 }, af: 3, peripheral: "TIM10", signal: "CH1" },
        AfMapping { pin: Pin { port: Port::B, number: 8 }, af: 4, peripheral: "I2C1", signal: "SCL" },
        AfMapping { pin: Pin { port: Port::B, number: 8 }, af: 9, peripheral: "CAN1", signal: "RX" },
        AfMapping { pin: Pin { port: Port::B, number: 9 }, af: 2, peripheral: "TIM4", signal: "CH4" },
        AfMapping { pin: Pin { port: Port::B, number: 9 }, af: 3, peripheral: "TIM11", signal: "CH1" },
        AfMapping { pin: Pin { port: Port::B, number: 9 }, af: 4, peripheral: "I2C1", signal: "SDA" },
        AfMapping { pin: Pin { port: Port::B, number: 9 }, af: 5, peripheral: "SPI2", signal: "NSS" },
        AfMapping { pin: Pin { port: Port::B, number: 9 }, af: 9, peripheral: "CAN1", signal: "TX" },
        AfMapping { pin: Pin { port: Port::B, number: 10 }, af: 1, peripheral: "TIM2", signal: "CH3" },
        AfMapping { pin: Pin { port: Port::B, number: 10 }, af: 4, peripheral: "I2C2", signal: "SCL" },
        AfMapping { pin: Pin { port: Port::B, number: 10 }, af: 5, peripheral: "SPI2", signal: "SCK" },
        AfMapping { pin: Pin { port: Port::B, number: 10 }, af: 7, peripheral: "USART3", signal: "TX" },
        AfMapping { pin: Pin { port: Port::B, number: 12 }, af: 1, peripheral: "TIM1", signal: "BKIN" },
        AfMapping { pin: Pin { port: Port::B, number: 12 }, af: 4, peripheral: "I2C2", signal: "SMBA" },
        AfMapping { pin: Pin { port: Port::B, number: 12 }, af: 5, peripheral: "SPI2", signal: "NSS" },
        AfMapping { pin: Pin { port: Port::B, number: 12 }, af: 7, peripheral: "USART3", signal: "CK" },
        AfMapping { pin: Pin { port: Port::B, number: 12 }, af: 9, peripheral: "CAN2", signal: "RX" },
        AfMapping { pin: Pin { port: Port::B, number: 13 }, af: 1, peripheral: "TIM1", signal: "CH1N" },
        AfMapping { pin: Pin { port: Port::B, number: 13 }, af: 5, peripheral: "SPI2", signal: "SCK" },
        AfMapping { pin: Pin { port: Port::B, number: 13 }, af: 7, peripheral: "USART3", signal: "CTS" },
        AfMapping { pin: Pin { port: Port::B, number: 13 }, af: 9, peripheral: "CAN2", signal: "TX" },
        AfMapping { pin: Pin { port: Port::B, number: 14 }, af: 1, peripheral: "TIM1", signal: "CH2N" },
        AfMapping { pin: Pin { port: Port::B, number: 14 }, af: 3, peripheral: "TIM8", signal: "CH2N" },
        AfMapping { pin: Pin { port: Port::B, number: 14 }, af: 5, peripheral: "SPI2", signal: "MISO" },
        AfMapping { pin: Pin { port: Port::B, number: 14 }, af: 7, peripheral: "USART3", signal: "RTS" },
        AfMapping { pin: Pin { port: Port::B, number: 14 }, af: 9, peripheral: "TIM12", signal: "CH1" },
        AfMapping { pin: Pin { port: Port::B, number: 15 }, af: 1, peripheral: "TIM1", signal: "CH3N" },
        AfMapping { pin: Pin { port: Port::B, number: 15 }, af: 3, peripheral: "TIM8", signal: "CH3N" },
        AfMapping { pin: Pin { port: Port::B, number: 15 }, af: 5, peripheral: "SPI2", signal: "MOSI" },
        AfMapping { pin: Pin { port: Port::B, number: 15 }, af: 9, peripheral: "TIM12", signal: "CH2" },
        AfMapping { pin: Pin { port: Port::C, number: 1 }, af: 5, peripheral: "SPI3", signal: "MOSI" },
        AfMapping { pin: Pin { port: Port::C, number: 1 }, af: 7, peripheral: "SPI2", signal: "MOSI" },
        AfMapping { pin: Pin { port: Port::C, number: 2 }, af: 5, peripheral: "SPI2", signal: "MISO" },
        AfMapping { pin: Pin { port: Port::C, number: 3 }, af: 5, peripheral: "SPI2", signal: "MOSI" },
        AfMapping { pin: Pin { port: Port::C, number: 5 }, af: 7, peripheral: "USART3", signal: "RX" },
        AfMapping { pin: Pin { port: Port::C, number: 6 }, af: 2, peripheral: "TIM3", signal: "CH1" },
        AfMapping { pin: Pin { port: Port::C, number: 6 }, af: 3, peripheral: "TIM8", signal: "CH1" },
        AfMapping { pin: Pin { port: Port::C, number: 6 }, af: 8, peripheral: "USART6", signal: "TX" },
        AfMapping { pin: Pin { port: Port::C, number: 7 }, af: 2, peripheral: "TIM3", signal: "CH2" },
        AfMapping { pin: Pin { port: Port::C, number: 7 }, af: 3, peripheral: "TIM8", signal: "CH2" },
        AfMapping { pin: Pin { port: Port::C, number: 7 }, af: 5, peripheral: "SPI2", signal: "SCK" },
        AfMapping { pin: Pin { port: Port::C, number: 7 }, af: 8, peripheral: "USART6", signal: "RX" },
        AfMapping { pin: Pin { port: Port::C, number: 8 }, af: 2, peripheral: "TIM3", signal: "CH3" },
        AfMapping { pin: Pin { port: Port::C, number: 8 }, af: 3, peripheral: "TIM8", signal: "CH3" },
        AfMapping { pin: Pin { port: Port::C, number: 8 }, af: 8, peripheral: "USART6", signal: "CK" },
        AfMapping { pin: Pin { port: Port::C, number: 9 }, af: 0, peripheral: "RCC", signal: "MCO_2" },
        AfMapping { pin: Pin { port: Port::C, number: 9 }, af: 2, peripheral: "TIM3", signal: "CH4" },
        AfMapping { pin: Pin { port: Port::C, number: 9 }, af: 3, peripheral: "TIM8", signal: "CH4" },
        AfMapping { pin: Pin { port: Port::C, number: 9 }, af: 4, peripheral: "I2C3", signal: "SDA" },
        AfMapping { pin: Pin { port: Port::C, number: 10 }, af: 6, peripheral: "SPI3", signal: "SCK" },
        AfMapping { pin: Pin { port: Port::C, number: 10 }, af: 7, peripheral: "USART3", signal: "TX" },
        AfMapping { pin: Pin { port: Port::C, number: 10 }, af: 8, peripheral: "UART4", signal: "TX" },
        AfMapping { pin: Pin { port: Port::C, number: 11 }, af: 6, peripheral: "SPI3", signal: "MISO" },
        AfMapping { pin: Pin { port: Port::C, number: 11 }, af: 7, peripheral: "USART3", signal: "RX" },
        AfMapping { pin: Pin { port: Port::C, number: 11 }, af: 8, peripheral: "UART4", signal: "RX" },
        AfMapping { pin: Pin { port: Port::C, number: 12 }, af: 6, peripheral: "SPI3", signal: "MOSI" },
        AfMapping { pin: Pin { port: Port::C, number: 12 }, af: 7, peripheral: "USART3", signal: "CK" },
        AfMapping { pin: Pin { port: Port::C, number: 12 }, af: 8, peripheral: "UART5", signal: "TX" },
        AfMapping { pin: Pin { port: Port::D, number: 2 }, af: 2, peripheral: "TIM3", signal: "ETR" },
        AfMapping { pin: Pin { port: Port::D, number: 2 }, af: 8, peripheral: "UART5", signal: "RX" },
    ]
}

/// The STM32F411RE (LQFP64) alternate-function table, sorted by (pin, AF).
pub open spec fn f411re_table() -> Seq<AfMapping> {
    seq![
        AfMapping { pin: Pin { port: Port::A, number: 0 }, af: 1, peripheral: "TIM2", signal: "CH1" },
        AfMapping { pin: Pin { port: Port::A, number: 0 }, af: 1, peripheral: "TIM2", signal: "ETR" },
        AfMapping { pin: Pin { port: Port::A, number: 0 }, af: 2, peripheral: "TIM5", signal: "CH1" },
        AfMapping { pin: Pin { port: Port::A, number: 0 }, af: 7, peripheral: "USART2", signal: "CTS" },
        AfMapping { pin: Pin { port: Port::A, number: 1 }, af: 1, peripheral: "TIM2", signal: "CH2" },
        AfMapping { pin: Pin { port: Port::A, number: 1 }, af: 2, peripheral: "TIM5", signal: "CH2" },
        AfMapping { pin: Pin { port: Port::A, number: 1 }, af: 5, peripheral: "SPI4", signal: "MOSI" },
        AfMapping { pin: Pin { port: Port::A, number: 1 }, af: 7, peripheral: "USART2", signal: "RTS" },
        AfMapping { pin: Pin { port: Port::A, number: 2 }, af: 1, peripheral: "TIM2", signal: "CH3" },
        AfMapping { pin: Pin { port: Port::A, number: 2 }, af: 2, peripheral: "TIM5", signal: "CH3" },
        AfMapping { pin: Pin { port: Port::A, number: 2 }, af: 3, peripheral: "TIM9", signal: "CH1" },
        AfMapping { pin: Pin { port: Port::A, number: 2 }, af: 7, peripheral: "USART2", signal: "TX" },
        AfMapping { pin: Pin { port: Port::A, number: 3 }, af: 1, peripheral: "TIM2", signal: "CH4" },
        AfMapping { pin: Pin { port: Port::A, number: 3 }, af: 2, peripheral: "TIM5", signal: "CH4" },
        AfMapping { pin: Pin { port: Port::A, number: 3 }, af: 3, peripheral: "TIM9", signal: "CH2" },
        AfMapping { pin: Pin { port: Port::A, number: 3 }, af: 7, peripheral: "USART2", signal: "RX" },
        AfMapping { pin: Pin { port: Port::A, number: 4 }, af: 5, peripheral: "SPI1", signal: "NSS" },
        AfMapping { pin: Pin { port: Port::A, number: 4 }, af: 6, peripheral: "SPI3", signal: "NSS" },
        AfMapping { pin: Pin { port: Port::A, number: 4 }, af: 7, peripheral: "USART2", signal: "CK" },
        AfMapping { pin: Pin { port: Port::A, number: 5 }, af: 1, peripheral: "TIM2", signal: "CH1" },
        AfMapping { pin: Pin { port: Port::A, number: 5 }, af: 1, peripheral: "TIM2", signal: "ETR" },
        AfMapping { pin: Pin { port: Port::A, number: 5 }, af: 5, peripheral: "SPI1", signal: "SCK" },
        AfMapping { pin: Pin { port: Port::A, number: 6 }, af: 1, peripheral: "TIM1", signal: "BKIN" },
        AfMapping { pin: Pin { port: Port::A, number: 6 }, af: 2, peripheral: "TIM3", signal: "CH1" },
        AfMapping { pin: Pin { port: Port::A, number: 6 }, af: 5, peripheral: "SPI1", signal: "MISO" },
        AfMapping { pin: Pin { port: Port::A, number: 7 }, af: 1, peripheral: "TIM1", signal: "CH1N" },
        AfMapping { pin: Pin { port: Port::A, number: 7 }, af: 2, peripheral: "TIM3", signal: "CH2" },
        AfMapping { pin: Pin { port: Port::A, number: 7 }, af: 5, peripheral: "SPI1", signal: "MOSI" },
        AfMapping { pin: Pin { port: Port::A, number: 8 }, af: 0, peripheral: "RCC", signal: "MCO_1" },
        AfMapping { pin: Pin { port: Port::A, number: 8 }, af: 1, peripheral: "TIM1", signal: "CH1" },
        AfMapping { pin: Pin { port: Port::A, number: 8 }, af: 4, peripheral: "I2C3", signal: "SCL" },
        AfMapping { pin: Pin { port: Port::A, number: 8 }, af: 7, peripheral: "USART1", signal: "CK" },
        AfMapping { pin: Pin { port: Port::A, number: 9 }, af: 1, peripheral: "TIM1", signal: "CH2" },
        AfMapping { pin: Pin { port: Port::A, number: 9 }, af: 4, peripheral: "I2C3", signal: "SMBA" },
        AfMapping { pin: Pin { port: Port::A, number: 9 }, af: 7, peripheral: "USART1", signal: "TX" },
        AfMapping { pin: Pin { port: Port::A, number: 10 }, af: 1, peripheral: "TIM1", signal: "CH3" },
        AfMapping { pin: Pin { port: Port::A, number: 10 }, af: 6, peripheral: "SPI5", signal: "MOSI" },
        AfMapping { pin: Pin { port: Port::A, number: 10 }, af: 7, peripheral: "USART1", signal: "RX" },
        AfMapping { pin: Pin { port: Port::A, number: 11 }, af: 1, peripheral: "TIM1", signal: "CH4" },
        AfMapping { pin: Pin { port: Port::A, number: 11 }, af: 6, peripheral: "SPI4", signal: "MISO" },
        AfMapping { pin: Pin { port: Port::A, number: 11 }, af: 7, peripheral: "USART1", signal: "CTS" },
        AfMapping { pin: Pin { port: Port::A, number: 11 }, af: 8, peripheral: "USART6", signal: "TX" },
        AfMapping { pin: Pin { port: Port::A, number: 12 }, af: 1, peripheral: "TIM1", signal: "ETR" },
        AfMapping { pin: Pin { port: Port::A, number: 12 }, af: 6, peripheral: "SPI5", signal: "MISO" },
        AfMapping { pin: Pin { port: Port::A, number: 12 }, af: 7, peripheral: "USART1", signal: "RTS" },
        AfMapping { pin: Pin { port: Port::A, number: 12 }, af: 8, peripheral: "USART6", signal: "RX" },
        AfMapping { pin: Pin { port: Port::A, number: 13 }, af: 0, peripheral: "SYS", signal: "JTMS-SWDIO" },
        AfMapping { pin: Pin { port: Port::A, number: 14 }, af: 0, peripheral: "SYS", signal: "JTCK-SWCLK" },
        AfMapping { pin: Pin { port: Port::A, number: 15 }, af: 0, peripheral: "SYS", signal: "JTDI" },
        AfMapping { pin: Pin { port: Port::A, number: 15 }, af: 1, peripheral: "TIM2", signal: "CH1" },
        AfMapping { pin: Pin { port: Port::A, number: 15 }, af: 1, peripheral: "TIM2", signal: "ETR" },
        AfMapping { pin: Pin { port: Port::A, number: 15 }, af: 5, peripheral: "SPI1", signal: "NSS" },
        AfMapping { pin: Pin { port: Port::A, number: 15 }, af: 6, peripheral: "SPI3", signal: "NSS" },
        AfMapping { pin: Pin { port: Port::A, number: 15 }, af: 7, peripheral: "USART1", signal: "TX" },
        AfMapping { pin: Pin { port: Port::B, number: 0 }, af: 1, peripheral: "TIM1", signal: "CH2N" },
        AfMapping { pin: Pin { port: Port::B, number: 0 }, af: 2, peripheral: "TIM3", signal: "CH3" },
        AfMapping { pin: Pin { port: Port::B, number: 0 }, af: 6, peripheral: "SPI5", signal: "SCK" },
        AfMapping { pin: Pin { port: Port::B, number: 1 }, af: 1, peripheral: "TIM1", signal: "CH3N" },
        AfMapping { pin: Pin { port: Port::B, number: 1 }, af: 2, peripheral: "TIM3", signal: "CH4" },
        AfMapping { pin: Pin { port: Port::B, number: 1 }, af: 6, peripheral: "SPI5", signal: "NSS" },
        AfMapping { pin: Pin { port: Port::B, number: 3 }, af: 0, peripheral: "SYS", signal: "JTDO-SWO" },
        AfMapping { pin: Pin { port: Port::B, number: 3 }, af: 1, peripheral: "TIM2", signal: "CH2" },
        AfMapping { pin: Pin { port: Port::B, number: 3 }, af: 5, peripheral: "SPI1", signal: "SCK" },
        AfMapping { pin: Pin { port: Port::B, number: 3 }, af: 6, peripheral: "SPI3", signal: "SCK" },
        AfMapping { pin: Pin { port: Port::B, number: 3 }, af: 7, peripheral: "USART1", signal: "RX" },
        AfMapping { pin: Pin { port: Port::B, number: 3 }, af: 9, peripheral: "I2C2", signal: "SDA" },
        AfMapping { pin: Pin { port: Port::B, number: 4 }, af: 0, peripheral: "SYS", signal: "JTRST" },
        AfMapping { pin: Pin { port: Port::B, number: 4 }, af: 2, peripheral: "TIM3", signal: "CH1" },
        AfMapping { pin: Pin { port: Port::B, number: 4 }, af: 5, peripheral: "SPI1", signal: "MISO" },
        AfMapping { pin: Pin { port: Port::B, number: 4 }, af: 6, peripheral: "SPI3", signal: "MISO" },
        AfMapping { pin: Pin { port: Port::B, number: 4 }, af: 9, peripheral: "I2C3", signal: "SDA" },
        AfMapping { pin: Pin { port: Port::B, number: 5 }, af: 2, peripheral: "TIM3", signal: "CH2" },
        AfMapping { pin: Pin { port: Port::B, number: 5 }, af: 4, peripheral: "I2C1", signal: "SMBA" },
        AfMapping { pin: Pin { port: Port::B, number: 5 }, af: 5, peripheral: "SPI1", signal: "MOSI" },
        AfMapping { pin: Pin { port: Port::B, number: 5 }, af: 6, peripheral: "SPI3", signal: "MOSI" },
        AfMapping { pin: Pin { port: Port::B, number: 6 }, af: 2, peripheral: "TIM4", signal: "CH1" },
        AfMapping { pin: Pin { port: Port::B, number: 6 }, af: 4, peripheral: "I2C1", signal: "SCL" },
        AfMapping { pin: Pin { port: Port::B, number: 6 }, af: 7, peripheral: "USART1", signal: "TX" },
        AfMapping { pin: Pin { port: Port::B, number: 7 }, af: 2, peripheral: "TIM4", signal: "CH2" },
        AfMapping { pin: Pin { port: Port::B, number: 7 }, af: 4, peripheral: "I2C1", signal: "SDA" },
        AfMapping { pin: Pin { port: Port::B, number: 7 }, af: 7, peripheral: "USART1", signal: "RX" },
        AfMapping { pin: Pin { port: Port::B, number: 8 }, af: 2, peripheral: "TIM4", signal: "CH3" },
        AfMapping { pin: Pin { port: Port::B, number: 8 }, af: 3, peripheral: "TIM10", signal: "CH1" },
        AfMapping { pin: Pin { port: Port::B, number: 8 }, af: 4, peripheral: "I2C1", signal: "SCL" },
        AfMapping { pin: Pin { port: Port::B, number: 8 }, af: 6, peripheral: "SPI5", signal: "MOSI" },
        AfMapping { pin: Pin { port: Port::B, number: 8 }, af: 9, peripheral: "I2C3", signal: "SDA" },
        AfMapping { pin: Pin { port: Port::B, number: 9 }, af: 2, peripheral: "TIM4", signal: "CH4" },
        AfMapping { pin: Pin { port: Port::B, number: 9 }, af: 3, peripheral: "TIM11", signal: "CH1" },
        AfMapping { pin: Pin { port: Port::B, number: 9 }, af: 4, peripheral: "I2C1", signal: "SDA" },
        AfMapping { pin: Pin { port: Port::B, number: 9 }, af: 5, peripheral: "SPI2", signal: "NSS" },
        AfMapping { pin: Pin { port: Port::B, number: 9 }, af: 9, peripheral: "I2C2", signal: "SDA" },
        AfMapping { pin: Pin { port: Port::B, number: 10 }, af: 1, peripheral: "TIM2", signal: "CH3" },
        AfMapping { pin: Pin { port: Port::B, number: 10 }, af: 4, peripheral: "I2C2", signal: "SCL" },
        AfMapping { pin: Pin { port: Port::B, number: 10 }, af: 5, peripheral: "SPI2", signal: "SCK" },
        AfMapping { pin: Pin { port: Port::B, number: 12 }, af: 1, peripheral: "TIM1", signal: "BKIN" },
        AfMapping { pin: Pin { port: Port::B, number: 12 }, af: 4, peripheral: "I2C2", signal: "SMBA" },
        AfMapping { pin: Pin { port: Port::B, number: 12 }, af: 5, peripheral: "SPI2", signal: "NSS" },
        AfMapping { pin: Pin { port: Port::B, number: 12 }, af: 6, peripheral: "SPI4", signal: "NSS" },
        AfMapping { pin: Pin { port: Port::B, number: 12 }, af: 7, peripheral: "SPI3", signal: "SCK" },
        AfMapping { pin: Pin { port: Port::B, number: 13 }, af: 1, peripheral: "TIM1", signal: "CH1N" },
        AfMapping { pin: Pin { port: Port::B, number: 13 }, af: 5, peripheral: "SPI2", signal: "SCK" },
        AfMapping { pin: Pin { port: Port::B, number: 13 }, af: 6, peripheral: "SPI4", signal: "SCK" },
        AfMapping { pin: Pin { port: Port::B, number: 14 }, af: 1, peripheral: "TIM1", signal: "CH2N" },
        AfMapping { pin: Pin { port: Port::B, number: 14 }, af: 5, peripheral: "SPI2", signal: "MISO" },
        AfMapping { pin: Pin { port: Port::B, number: 15 }, af: 1, peripheral: "TIM1", signal: "CH3N" },
        AfMapping { pin: Pin { port: Port::B, number: 15 }, af: 5, peripheral: "SPI2", signal: "MOSI" },
        AfMapping { pin: Pin { port: Port::C, number: 2 }, af: 5, peripheral: "SPI2", signal: "MISO" },
        AfMapping { pin: Pin { port: Port::C, number: 3 }, af: 5, peripheral: "SPI2", signal: "MOSI" },
        AfMapping { pin: Pin { port: Port::C, number: 6 }, af: 2, peripheral: "TIM3", signal: "CH1" },
        AfMapping { pin: Pin { port: Port::C, number: 6 }, af: 8, peripheral: "USART6", signal: "TX" },
        AfMapping { pin: Pin { port: Port::C, number: 7 }, af: 2, peripheral: "TIM3", signal: "CH2" },
        AfMapping { pin: Pin { port: Port::C, number: 7 }, af: 5, peripheral: "SPI2", signal: "SCK" },
        AfMapping { pin: Pin { port: Port::C, number: 7 }, af: 8, peripheral: "USART6", signal: "RX" },
        AfMapping { pin: Pin { port: Port::C, number: 8 }, af: 2, peripheral: "TIM3", signal: "CH3" },
        AfMapping { pin: Pin { port: Port::C, number: 8 }, af: 8, peripheral: "USART6", signal: "CK" },
        AfMapping { pin: Pin { port: Port::C, number: 9 }, af: 0, peripheral: "RCC", signal: "MCO_2" },
        AfMapping { pin: Pin { port: Port::C, number: 9 }, af: 2, peripheral: "TIM3", signal: "CH4" },
        AfMapping { pin: Pin { port: Port::C, number: 9 }, af: 4, peripheral: "I2C3", signal: "SDA" },
        AfMapping { pin: Pin { port: Port::C, number: 10 }, af: 6, peripheral: "SPI3", signal: "SCK" },
        AfMapping { pin: Pin { port: Port::C, number: 11 }, af: 6, peripheral: "SPI3", signal: "MISO" },
        AfMapping { pin: Pin { port: Port::C, number: 12 }, af: 6, peripheral: "SPI3", signal: "MOSI" },
        AfMapping { pin: Pin { port: Port::D, number: 2 }, af: 2, peripheral: "TIM3", signal: "ETR" },
    ]
}

/// The STM32F411RE (LQFP64) alternate-function table, sorted by (pin, AF).
pub fn f411re_entries() -> (r: &'static [AfMapping])
    ensures
        r@ == f411re_table(),
{
    &[
        AfMapping { pin: Pin { port: Port::A, number: 0 }, af: 1, peripheral: "TIM2", signal: "CH1" },
        AfMapping { pin: Pin { port: Port::A, number: 0 }, af: 1, peripheral: "TIM2", signal: "ETR" },
        AfMapping { pin: Pin { port: Port::A, number: 0 }, af: 2, peripheral: "TIM5", signal: "CH1" },
        AfMapping { pin: Pin { port: Port::A, number: 0 }, af: 7, peripheral: "USART2", signal: "CTS" },
        AfMapping { pin: Pin { port: Port::A, number: 1 }, af: 1, peripheral: "TIM2", signal: "CH2" },
        AfMapping { pin: Pin { port: Port::A, number: 1 }, af: 2, peripheral: "TIM5", signal: "CH2" },
        AfMapping { pin: Pin { port: Port::A, number: 1 }, af: 5, peripheral: "SPI4", signal: "MOSI" },
        AfMapping { pin: Pin { port: Port::A, number: 1 }, af: 7, peripheral: "USART2", signal: "RTS" },
        AfMapping { pin: Pin { port: Port::A, number: 2 }, af: 1, peripheral: "TIM2", signal: "CH3" },
        AfMapping { pin: Pin { port: Port::A, number: 2 }, af: 2, peripheral: "TIM5", signal: "CH3" },
        AfMapping { pin: Pin { port: Port::A, number: 2 }, af: 3, peripheral: "TIM9", signal: "CH1" },
        AfMapping { pin: Pin { port: Port::A, number: 2 }, af: 7, peripheral: "USART2", signal: "TX" },
        AfMapping { pin: Pin { port: Port::A, number: 3 }, af: 1, peripheral: "TIM2", signal: "CH4" },
        AfMapping { pin: Pin { port: Port::A, number: 3 }, af: 2, peripheral: "TIM5", signal: "CH4" },
        AfMapping { pin: Pin { port: Port::A, number: 3 }, af: 3, peripheral: "TIM9", signal: "CH2" },
        AfMapping { pin: Pin { port: Port::A, number: 3 }, af: 7, peripheral: "USART2", signal: "RX" },
        AfMapping { pin: Pin { port: Port::A, number: 4 }, af: 5, peripheral: "SPI1", signal: "NSS" },
        AfMapping { pin: Pin { port: Port::A, number: 4 }, af: 6, peripheral: "SPI3", signal: "NSS" },
        AfMapping { pin: Pin { port: Port::A, number: 4 }, af: 7, peripheral: "USART2", signal: "CK" },
        AfMapping { pin: Pin { port: Port::A, number: 5 }, af: 1, peripheral: "TIM2", signal: "CH1" },
        AfMapping { pin: Pin { port: Port::A, number: 5 }, af: 1, peripheral: "TIM2", signal: "ETR" },
        AfMapping { pin: Pin { port: Port::A, number: 5 }, af: 5, peripheral: "SPI1", signal: "SCK" },
        AfMapping { pin: Pin { port: Port::A, number: 6 }, af: 1, peripheral: "TIM1", signal: "BKIN" },
        AfMapping { pin: Pin { port: Port::A, number: 6 }, af: 2, peripheral: "TIM3", signal: "CH1" },
        AfMapping { pin: Pin { port: Port::A, number: 6 }, af: 5, peripheral: "SPI1", signal: "MISO" },
        AfMapping { pin: Pin { port: Port::A, number: 7 }, af: 1, peripheral: "TIM1", signal: "CH1N" },
        AfMapping { pin: Pin { port: Port::A, number: 7 }, af: 2, peripheral: "TIM3", signal: "CH2" },
        AfMapping { pin: Pin { port: Port::A, number: 7 }, af: 5, peripheral: "SPI1", signal: "MOSI" },
        AfMapping { pin: Pin { port: Port::A, number: 8 }, af: 0, peripheral: "RCC", signal: "MCO_1" },
        AfMapping { pin: Pin { port: Port::A, number: 8 }, af: 1, peripheral: "TIM1", signal: "CH1" },
        AfMapping { pin: Pin { port: Port::A, number: 8 }, af: 4, peripheral: "I2C3", signal: "SCL" },
        AfMapping { pin: Pin { port: Port::A, number: 8 }, af: 7, peripheral: "USART1", signal: "CK" },
        AfMapping { pin: Pin { port: Port::A, number: 9 }, af: 1, peripheral: "TIM1", signal: "CH2" },
        AfMapping { pin: Pin { port: Port::A, number: 9 }, af: 4, peripheral: "I2C3", signal: "SMBA" },
        AfMapping { pin: Pin { port: Port::A, number: 9 }, af: 7, peripheral: "USART1", signal: "TX" },
        AfMapping { pin: Pin { port: Port::A, number: 10 }, af: 1, peripheral: "TIM1", signal: "CH3" },
        AfMapping { pin: Pin { port: Port::A, number: 10 }, af: 6, peripheral: "SPI5", signal: "MOSI" },
        AfMapping { pin: Pin { port: Port::A, number: 10 }, af: 7, peripheral: "USART1", signal: "RX" },
        AfMapping { pin: Pin { port: Port::A, number: 11 }, af: 1, peripheral: "TIM1", signal: "CH4" },
        AfMapping { pin: Pin { port: Port::A, number: 11 }, af: 6, peripheral: "SPI4", signal: "MISO" },
        AfMapping { pin: Pin { port: Port::A, number: 11 }, af: 7, peripheral: "USART1", signal: "CTS" },
        AfMapping { pin: Pin { port: Port::A, number: 11 }, af: 8, peripheral: "USART6", signal: "TX" },
        AfMapping { pin: Pin { port: Port::A, number: 12 }, af: 1, peripheral: "TIM1", signal: "ETR" },
        AfMapping { pin: Pin { port: Port::A, number: 12 }, af: 6, peripheral: "SPI5", signal: "MISO" },
        AfMapping { pin: Pin { port: Port::A, number: 12 }, af: 7, peripheral: "USART1", signal: "RTS" },
        AfMapping { pin: Pin { port: Port::A, number: 12 }, af: 8, peripheral: "USART6", signal: "RX" },
        AfMapping { pin: Pin { port: Port::A, number: 13 }, af: 0, peripheral: "SYS", signal: "JTMS-SWDIO" },
        AfMapping { pin: Pin { port: Port::A, number: 14 }, af: 0, peripheral: "SYS", signal: "JTCK-SWCLK" },
        AfMapping { pin: Pin { port: Port::A, number: 15 }, af: 0, peripheral: "SYS", signal: "JTDI" },
        AfMapping { pin: Pin { port: Port::A, number: 15 }, af: 1, peripheral: "TIM2", signal: "CH1" },
        AfMapping { pin: Pin { port: Port::A, number: 15 }, af: 1, peripheral: "TIM2", signal: "ETR" },
        AfMapping { pin: Pin { port: Port::A, number: 15 }, af: 5, peripheral: "SPI1", signal: "NSS" },
        AfMapping { pin: Pin { port: Port::A, number: 15 }, af: 6, peripheral: "SPI3", signal: "NSS" },
        AfMapping { pin: Pin { port: Port::A, number: 15 }, af: 7, peripheral: "USART1", signal: "TX" },
        AfMapping { pin: Pin { port: Port::B, number: 0 }, af: 1, peripheral: "TIM1", signal: "CH2N" },
        AfMapping { pin: Pin { port: Port::B, number: 0 }, af: 2, peripheral: "TIM3", signal: "CH3" },
        AfMapping { pin: Pin { port: Port::B, number: 0 }, af: 6, peripheral: "SPI5", signal: "SCK" },
        AfMapping { pin: Pin { port: Port::B, number: 1 }, af: 1, peripheral: "TIM1", signal: "CH3N" },
        AfMapping { pin: Pin { port: Port::B, number: 1 }, af: 2, peripheral: "TIM3", signal: "CH4" },
        AfMapping { pin: Pin { port: Port::B, number: 1 }, af: 6, peripheral: "SPI5", signal: "NSS" },
        AfMapping { pin: Pin { port: Port::B, number: 3 }, af: 0, peripheral: "SYS", signal: "JTDO-SWO" },
        AfMapping { pin: Pin { port: Port::B, number: 3 }, af: 1, peripheral: "TIM2", signal: "CH2" },
        AfMapping { pin: Pin { port: Port::B, number: 3 }, af: 5, peripheral: "SPI1", signal: "SCK" },
        AfMapping { pin: Pin { port: Port::B, number: 3 }, af: 6, peripheral: "SPI3", signal: "SCK" },
        AfMapping { pin: Pin { port: Port::B, number: 3 }, af: 7, peripheral: "USART1", signal: "RX" },
        AfMapping { pin: Pin { port: Port::B, number: 3 }, af: 9, peripheral: "I2C2", signal: "SDA" },
        AfMapping { pin: Pin { port: Port::B, number: 4 }, af: 0, peripheral: "SYS", signal: "JTRST" },
        AfMapping { pin: Pin { port: Port::B, number: 4 }, af: 2, peripheral: "TIM3", signal: "CH1" },
        AfMapping { pin: Pin { port: Port::B, number: 4 }, af: 5, peripheral: "SPI1", signal: "MISO" },
        AfMapping { pin: Pin { port: Port::B, number: 4 }, af: 6, peripheral: "SPI3", signal: "MISO" },
        AfMapping { pin: Pin { port: Port::B, number: 4 }, af: 9, peripheral: "I2C3", signal: "SDA" },
        AfMapping { pin: Pin { port: Port::B, number: 5 }, af: 2, peripheral: "TIM3", signal: "CH2" },
        AfMapping { pin: Pin { port: Port::B, number: 5 }, af: 4, peripheral: "I2C1", signal: "SMBA" },
        AfMapping { pin: Pin { port: Port::B, number: 5 }, af: 5, peripheral: "SPI1", signal: "MOSI" },
        AfMapping { pin: Pin { port: Port::B, number: 5 }, af: 6, peripheral: "SPI3", signal: "MOSI" },
        AfMapping { pin: Pin { port: Port::B, number: 6 }, af: 2, peripheral: "TIM4", signal: "CH1" },
        AfMapping { pin: Pin { port: Port::B, number: 6 }, af: 4, peripheral: "I2C1", signal: "SCL" },
        AfMapping { pin: Pin { port: Port::B, number: 6 }, af: 7, peripheral: "USART1", signal: "TX" },
        AfMapping { pin: Pin { port: Port::B, number: 7 }, af: 2, peripheral: "TIM4", signal: "CH2" },
        AfMapping { pin: Pin { port: Port::B, number: 7 }, af: 4, peripheral: "I2C1", signal: "SDA" },
        AfMapping { pin: Pin { port: Port::B, number: 7 }, af: 7, peripheral: "USART1", signal: "RX" },
        AfMapping { pin: Pin { port: Port::B, number: 8 }, af: 2, peripheral: "TIM4", signal: "CH3" },
        AfMapping { pin: Pin { port: Port::B, number: 8 }, af: 3, peripheral: "TIM10", signal: "CH1" },
        AfMapping { pin: Pin { port: Port::B, number: 8 }, af: 4, peripheral: "I2C1", signal: "SCL" },
        AfMapping { pin: Pin { port: Port::B, number: 8 }, af: 6, peripheral: "SPI5", signal: "MOSI" },
        AfMapping { pin: Pin { port: Port::B, number: 8 }, af: 9, peripheral: "I2C3", signal: "SDA" },
        AfMapping { pin: Pin { port: Port::B, number: 9 }, af: 2, peripheral: "TIM4", signal: "CH4" },
        AfMapping { pin: Pin { port: Port::B, number: 9 }, af: 3, peripheral: "TIM11", signal: "CH1" },
        AfMapping { pin: Pin { port: Port::B, number: 9 }, af: 4, peripheral: "I2C1", signal: "SDA" },
        AfMapping { pin: Pin { port: Port::B, number: 9 }, af: 5, peripheral: "SPI2", signal: "NSS" },
        AfMapping { pin: Pin { port: Port::B, number: 9 }, af: 9, peripheral: "I2C2", signal: "SDA" },
        AfMapping { pin: Pin { port: Port::B, number: 10 }, af: 1, peripheral: "TIM2", signal: "CH3" },
        AfMapping { pin: Pin { port: Port::B, number: 10 }, af: 4, peripheral: "I2C2", signal: "SCL" },
        AfMapping { pin: Pin { port: Port::B, number: 10 }, af: 5, peripheral: "SPI2", signal: "SCK" },
        AfMapping { pin: Pin { port: Port::B, number: 12 }, af: 1, peripheral: "TIM1", signal: "BKIN" },
        AfMapping { pin: Pin { port: Port::B, number: 12 }, af: 4, peripheral: "I2C2", signal: "SMBA" },
        AfMapping { pin: Pin { port: Port::B, number: 12 }, af: 5, peripheral: "SPI2", signal: "NSS" },
        AfMapping { pin: Pin { port: Port::B, number: 12 }, af: 6, peripheral: "SPI4", signal: "NSS" },
        AfMapping { pin: Pin { port: Port::B, number: 12 }, af: 7, peripheral: "SPI3", signal: "SCK" },
        AfMapping { pin: Pin { port: Port::B, number: 13 }, af: 1, peripheral: "TIM1", signal: "CH1N" },
        AfMapping { pin: Pin { port: Port::B, number: 13 }, af: 5, peripheral: "SPI2", signal: "SCK" },
        AfMapping { pin: Pin { port: Port::B, number: 13 }, af: 6, peripheral: "SPI4", signal: "SCK" },
        AfMapping { pin: Pin { port: Port::B, number: 14 }, af: 1, peripheral: "TIM1", signal: "CH2N" },
        AfMapping { pin: Pin { port: Port::B, number: 14 }, af: 5, peripheral: "SPI2", signal: "MISO" },
        AfMapping { pin: Pin { port: Port::B, number: 15 }, af: 1, peripheral: "TIM1", signal: "CH3N" },
        AfMapping { pin: Pin { port: Port::B, number: 15 }, af: 5, peripheral: "SPI2", signal: "MOSI" },
        AfMapping { pin: Pin { port: Port::C, number: 2 }, af: 5, peripheral: "SPI2", signal: "MISO" },
        AfMapping { pin: Pin { port: Port::C, number: 3 }, af: 5, peripheral: "SPI2", signal: "MOSI" },
        AfMapping { pin: Pin { port: Port::C, number: 6 }, af: 2, peripheral: "TIM3", signal: "CH1" },
        AfMapping { pin: Pin { port: Port::C, number: 6 }, af: 8, peripheral: "USART6", signal: "TX" },
        AfMapping { pin: Pin { port: Port::C, number: 7 }, af: 2, peripheral: "TIM3", signal: "CH2" },
        AfMapping { pin: Pin { port: Port::C, number: 7 }, af: 5, peripheral: "SPI2", signal: "SCK" },
        AfMapping { pin: Pin { port: Port::C, number: 7 }, af: 8, peripheral: "USART6", signal: "RX" },
        AfMapping { pin: Pin { port: Port::C, number: 8 }, af: 2, peripheral: "TIM3", signal: "CH3" },
        AfMapping { pin: Pin { port: Port::C, number: 8 }, af: 8, peripheral: "USART6", signal: "CK" },
        AfMapping { pin: Pin { port: Port::C, number: 9 }, af: 0, peripheral: "RCC", signal: "MCO_2" },
        AfMapping { pin: Pin { port: Port::C, number: 9 }, af: 2, peripheral: "TIM3", signal: "CH4" },
        AfMapping { pin: Pin { port: Port::C, number: 9 }, af: 4, peripheral: "I2C3", signal: "SDA" },
        AfMapping { pin: Pin { port: Port::C, number: 10 }, af: 6, peripheral: "SPI3", signal: "SCK" },
        AfMapping { pin: Pin { port: Port::C, number: 11 }, af: 6, peripheral: "SPI3", signal: "MISO" },
        AfMapping { pin: Pin { port: Port::C, number: 12 }, af: 6, peripheral: "SPI3", signal: "MOSI" },
        AfMapping { pin: Pin { port: Port::D, number: 2 }, af: 2, peripheral: "TIM3", signal: "ETR" },
    ]
}

/// The datasheet-verified STM32F446RE seed entries.
pub open spec fn seed_f446re_rows() -> Seq<AfMapping> {
    seq![
        AfMapping { pin: Pin { port: Port::A, number: 2 }, af: 7, peripheral: "USART2", signal: "TX" },
        AfMapping { pin: Pin { port: Port::A, number: 3 }, af: 7, peripheral: "USART2", signal: "RX" },
        AfMapping { pin: Pin { port: Port::A, number: 4 }, af: 5, peripheral: "SPI1", signal: "NSS" },
        AfMapping { pin: Pin { port: Port::A, number: 5 }, af: 5, peripheral: "SPI1", signal: "SCK" },
        AfMapping { pin: Pin { port: Port::A, number: 6 }, af: 5, peripheral: "SPI1", signal: "MISO" },
        AfMapping { pin: Pin { port: Port::A, number: 7 }, af: 5, peripheral: "SPI1", signal: "MOSI" },
        AfMapping { pin: Pin { port: Port::B, number: 8 }, af: 4, peripheral: "I2C1", signal: "SCL" },
        AfMapping { pin: Pin { port: Port::B, number: 9 }, af: 4, peripheral: "I2C1", signal: "SDA" },
        AfMapping { pin: Pin { port: Port::C, number: 10 }, af: 8, peripheral: "UART4", signal: "TX" },
        AfMapping { pin: Pin { port: Port::C, number: 12 }, af: 8, peripheral: "UART5", signal: "TX" },
    ]
}

/// Datasheet-verified STM32F446RE entries (DS10693 Table 11) that the full table must contain.
pub fn seed_f446re() -> (r: &'static [AfMapping])
    ensures
        r@ == seed_f446re_rows(),
{
    &[
        AfMapping { pin: Pin { port: Port::A, number: 2 }, af: 7, peripheral: "USART2", signal: "TX" },
        AfMapping { pin: Pin { port: Port::A, number: 3 }, af: 7, peripheral: "USART2", signal: "RX" },
        AfMapping { pin: Pin { port: Port::A, number: 4 }, af: 5, peripheral: "SPI1", signal: "NSS" },
        AfMapping { pin: Pin { port: Port::A, number: 5 }, af: 5, peripheral: "SPI1", signal: "SCK" },
        AfMapping { pin: Pin { port: Port::A, number: 6 }, af: 5, peripheral: "SPI1", signal: "MISO" },
        AfMapping { pin: Pin { port: Port::A, number: 7 }, af: 5, peripheral: "SPI1", signal: "MOSI" },
        AfMapping { pin: Pin { port: Port::B, number: 8 }, af: 4, peripheral: "I2C1", signal: "SCL" },
        AfMapping { pin: Pin { port: Port::B, number: 9 }, af: 4, peripheral: "I2C1", signal: "SDA" },
        AfMapping { pin: Pin { port: Port::C, number: 10 }, af: 8, peripheral: "UART4", signal: "TX" },
        AfMapping { pin: Pin { port: Port::C, number: 12 }, af: 8, peripheral: "UART5", signal: "TX" },
    ]
}

/// The datasheet-verified STM32F411RE seed entries.
pub open spec fn seed_f411re_rows() -> Seq<AfMapping> {
    seq![
        AfMapping { pin: Pin { port: Port::A, number: 2 }, af: 7, peripheral: "USART2", signal: "TX" },
        AfMapping { pin: Pin { port: Port::A, number: 3 }, af: 7, peripheral: "USART2", signal: "RX" },
        AfMapping { pin: Pin { port: Port::A, number: 5 }, af: 5, peripheral: "SPI1", signal: "SCK" },
        AfMapping { pin: Pin { port: Port::A, number: 6 }, af: 5, peripheral: "SPI1", signal: "MISO" },
        AfMapping { pin: Pin { port: Port::A, number: 7 }, af: 5, peripheral: "SPI1", signal: "MOSI" },
        AfMapping { pin: Pin { port: Port::B, number: 8 }, af: 4, peripheral: "I2C1", signal: "SCL" },
        AfMapping { pin: Pin { port: Port::B, number: 9 }, af: 4, peripheral: "I2C1", signal: "SDA" },
        AfMapping { pin: Pin { port: Port::A, number: 11 }, af: 8, peripheral: "USART6", signal: "TX" },
        AfMapping { pin: Pin { port: Port::A, number: 12 }, af: 8, peripheral: "USART6", signal: "RX" },
    ]
}

/// Datasheet-verified STM32F411RE entries (DS10314 Table 9) that the full table must contain.
pub fn seed_f411re() -> (r: &'static [AfMapping])
    ensures
        r@ == seed_f411re_rows(),
{
    &[
        AfMapping { pin: Pin { port: Port::A, number: 2 }, af: 7, peripheral: "USART2", signal: "TX" },
        AfMapping { pin: Pin { port: Port::A, number: 3 }, af: 7, peripheral: "USART2", signal: "RX" },
        AfMapping { pin: Pin { port: Port::A, number: 5 }, af: 5, peripheral: "SPI1", signal: "SCK" },
        AfMapping { pin: Pin { port: Port::A, number: 6 }, af: 5, peripheral: "SPI1", signal: "MISO" },
        AfMapping { pin: Pin { port: Port::A, number: 7 }, af: 5, peripheral: "SPI1", signal: "MOSI" },
        AfMapping { pin: Pin { port: Port::B, number: 8 }, af: 4, peripheral: "I2C1", signal: "SCL" },
        AfMapping { pin: Pin { port: Port::B, number: 9 }, af: 4, peripheral: "I2C1", signal: "SDA" },
        AfMapping { pin: Pin { port: Port::A, number: 11 }, af: 8, peripheral: "USART6", signal: "TX" },
        AfMapping { pin: Pin { port: Port::A, number: 12 }, af: 8, peripheral: "USART6", signal: "RX" },
    ]
}


/// Every datasheet-verified F446RE seed entry is in the compiled-in table.
pub proof fn lemma_seed_f446re_in_table()
    ensures
        forall|i: int| 0 <= i < seed_f446re_rows().len() ==> f446re_table().contains(#[trigger] seed_f446re_rows()[i]),
{
    assert(f446re_table()[13] == seed_f446re_rows()[0]);
    assert(f446re_table()[17] == seed_f446re_rows()[1]);
    assert(f446re_table()[19] == seed_f446re_rows()[2]);
    assert(f446re_table()[25] == seed_f446re_rows()[3]);
    assert(f446re_table()[29] == seed_f446re_rows()[4]);
    assert(f446re_table()[34] == seed_f446re_rows()[5]);
    assert(f446re_table()[96] == seed_f446re_rows()[6]);
    assert(f446re_table()[100] == seed_f446re_rows()[7]);
    assert(f446re_table()[146] == seed_f446re_rows()[8]);
    assert(f446re_table()[152] == seed_f446re_rows()[9]);
}

/// Every datasheet-verified F411RE seed entry is in the compiled-in table.
pub proof fn lemma_seed_f411re_in_table()
    ensures
        forall|i: int| 0 <= i < seed_f411re_rows().len() ==> f411re_table().contains(#[trigger] seed_f411re_rows()[i]),
{
    assert(f411re_table()[11] == seed_f411re_rows()[0]);
    assert(f411re_table()[15] == seed_f411re_rows()[1]);
    assert(f411re_table()[21] == seed_f411re_rows()[2]);
    assert(f411re_table()[24] == seed_f411re_rows()[3]);
    assert(f411re_table()[27] == seed_f411re_rows()[4]);
    assert(f411re_table()[83] == seed_f411re_rows()[5]);
    assert(f411re_table()[88] == seed_f411re_rows()[6]);
    assert(f411re_table()[41] == seed_f411re_rows()[7]);
    assert(f411re_table()[45] == seed_f411re_rows()[8]);
}

} // verus!
