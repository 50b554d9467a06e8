//! The static peripheral model: how `stm32.toml` keys map to database
//! signals, which pins a peripheral requires, and which bus clock domain
//! feeds it.

use vstd::prelude::*;
use crate::text::{ascii_upper, str_eq, to_ascii_uppercase};

verus! {

/// A device bus clock domain.
#[derive(Debug, Clone, Copy, PartialEq, Eq, Structural)]
pub enum Bus {
    Ahb1,
    Apb1,
    Apb2,
}

/// The name of a bus, e.g. `"APB1"`.
pub open spec fn bus_name(b: Bus) -> Seq<char> {
    match b {
        Bus::Ahb1 => "AHB1"@,
        Bus::Apb1 => "APB1"@,
        Bus::Apb2 => "APB2"@,
    }
}

impl Bus {
    pub fn name(self) -> (s: &'static str)
        ensures
            s@ == bus_name(self),
    {
        match self {
            Bus::Ahb1 => "AHB1",
            Bus::Apb1 => "APB1",
            Bus::Apb2 => "APB2",
        }
    }

    /// The lower-case name, as the `[clocks]` key spells it.
    pub fn key(self) -> (s: &'static str)
        ensures
            s@ == bus_name(self).map_values(|c: char| crate::text::ascii_lower(c)),
    {
        proof {
            reveal_strlit("ahb1");
            reveal_strlit("apb1");
            reveal_strlit("apb2");
            reveal_strlit("AHB1");
            reveal_strlit("APB1");
            reveal_strlit("APB2");
        }
        let r = match self {
            Bus::Ahb1 => "ahb1",
            Bus::Apb1 => "apb1",
            Bus::Apb2 => "apb2",
        };
        assert(r@ =~= bus_name(self).map_values(|c: char| crate::text::ascii_lower(c)));
        r
    }
}

/// One configurable pin on a peripheral: the `stm32.toml` key, the database
/// signal name it resolves to, and whether the peripheral is unusable
/// without it.
#[derive(Debug, Clone, Copy)]
pub struct Role {
    /// The key as written in the config, e.g. `"tx"`.
    pub key: &'static str,
    /// The database signal name, e.g. `"TX"`.
    pub signal: &'static str,
    /// Whether omitting this pin is an error.
    pub required: bool,
}

/// A role as plain values: key, signal, required.
pub open spec fn role_model(r: Role) -> (Seq<char>, Seq<char>, bool) {
    (r.key@, r.signal@, r.required)
}

pub open spec fn roles_model(rs: Seq<Role>) -> Seq<(Seq<char>, Seq<char>, bool)> {
    rs.map_values(|r: Role| role_model(r))
}

/// `s` without its trailing ASCII digits.
pub open spec fn strip_trailing_digits(s: Seq<char>) -> Seq<char>
    decreases s.len(),
{
    if s.len() > 0 && '0' <= s.last() && s.last() <= '9' {
        strip_trailing_digits(s.drop_last())
    } else {
        s
    }
}

/// The role table of a peripheral kind (the instance name without its
/// number), in canonical order.
pub open spec fn kind_roles(kind: Seq<char>) -> Option<Seq<(Seq<char>, Seq<char>, bool)>> {
    if kind == "usart"@ || kind == "uart"@ {
        Some(seq![("tx"@, "TX"@, true), ("rx"@, "RX"@, true), ("cts"@, "CTS"@, false), ("rts"@, "RTS"@, false), ("ck"@, "CK"@, false)])
    } else if kind == "spi"@ {
        Some(seq![("mosi"@, "MOSI"@, true), ("miso"@, "MISO"@, true), ("sck"@, "SCK"@, true), ("nss"@, "NSS"@, false)])
    } else if kind == "i2c"@ || kind == "fmpi2c"@ {
        Some(seq![("sda"@, "SDA"@, true), ("scl"@, "SCL"@, true), ("smba"@, "SMBA"@, false)])
    } else if kind == "tim"@ {
        Some(seq![("channel1"@, "CH1"@, false), ("channel2"@, "CH2"@, false), ("channel3"@, "CH3"@, false), ("channel4"@, "CH4"@, false)])
    } else {
        None
    }
}

/// The pin roles of `instance` (e.g. `"usart2"`), chosen by its alphabetic
/// prefix, or `None` if the kind is not modelled.
pub fn roles_for(instance: &str) -> (r: Option<&'static [Role]>)
    ensures
        match r {
            Some(t) => kind_roles(strip_trailing_digits(instance@)) == Some(roles_model(t@)),
            None => kind_roles(strip_trailing_digits(instance@)) is None,
        },
{
    let mut end = instance.unicode_len();
    assert(instance@.subrange(0, end as int) =~= instance@);
    while end > 0
        invariant
            end <= instance@.len(),
            strip_trailing_digits(instance@) == strip_trailing_digits(instance@.subrange(0, end as int)),
        ensures
            end <= instance@.len(),
            strip_trailing_digits(instance@) == strip_trailing_digits(instance@.subrange(0, end as int)),
            end == 0 || !('0' <= instance@[end - 1] && instance@[end - 1] <= '9'),
        decreases end,
    {
        let c = instance.get_char(end - 1);
        if !('0' <= c && c <= '9') {
            break;
        }
        assert(instance@.subrange(0, end as int).drop_last() =~= instance@.subrange(0, end - 1));
        end -= 1;
    }
    let kind = instance.substring_char(0, end);
    assert(strip_trailing_digits(kind@) == kind@);
    if str_eq(kind, "usart") || str_eq(kind, "uart") {
        let t: &'static [Role] = &[
            Role { key: "tx", signal: "TX", required: true },
            Role { key: "rx", signal: "RX", required: true },
            Role { key: "cts", signal: "CTS", required: false },
            Role { key: "rts", signal: "RTS", required: false },
            Role { key: "ck", signal: "CK", required: false },
        ];
        assert(roles_model(t@) =~= kind_roles(kind@)->0);
        Some(t)
    } else if str_eq(kind, "spi") {
        let t: &'static [Role] = &[
            Role { key: "mosi", signal: "MOSI", required: true },
            Role { key: "miso", signal: "MISO", required: true },
            Role { key: "sck", signal: "SCK", required: true },
            Role { key: "nss", signal: "NSS", required: false },
        ];
        assert(roles_model(t@) =~= kind_roles(kind@)->0);
        Some(t)
    } else if str_eq(kind, "i2c") || str_eq(kind, "fmpi2c") {
        let t: &'static [Role] = &[
            Role { key: "sda", signal: "SDA", required: true },
            Role { key: "scl", signal: "SCL", required: true },
            Role { key: "smba", signal: "SMBA", required: false },
        ];
        assert(roles_model(t@) =~= kind_roles(kind@)->0);
        Some(t)
    } else if str_eq(kind, "tim") {
        let t: &'static [Role] = &[
            Role { key: "channel1", signal: "CH1", required: false },
            Role { key: "channel2", signal: "CH2", required: false },
            Role { key: "channel3", signal: "CH3", required: false },
            Role { key: "channel4", signal: "CH4", required: false },
        ];
        assert(roles_model(t@) =~= kind_roles(kind@)->0);
        Some(t)
    } else {
        None
    }
}

/// The database peripheral name of a config instance: `"usart2"` → `"USART2"`.
pub open spec fn peripheral_name_spec(instance: Seq<char>) -> Seq<char> {
    instance.map_values(|c: char| ascii_upper(c))
}

/// The database peripheral name for a config instance name: the instance
/// name upper-cased.
pub fn peripheral_name(instance: &str) -> (r: String)
    ensures
        r@ == peripheral_name_spec(instance@),
{
    to_ascii_uppercase(instance)
}

/// The bus feeding `peripheral` on the STM32F446RE (RM0390), or `None` when
/// unknown (the clock check is then skipped).
pub open spec fn peripheral_bus_spec(p: Seq<char>) -> Option<Bus> {
    if p == "USART1"@ || p == "USART6"@ || p == "SPI1"@ || p == "SPI4"@ || p == "SDIO"@ || p == "ADC1"@ || p == "ADC2"@ || p == "ADC3"@ || p == "SAI1"@ || p == "SAI2"@ || p == "TIM1"@ || p == "TIM8"@ || p == "TIM9"@ || p == "TIM10"@ || p == "TIM11"@ {
        Some(Bus::Apb2)
    } else if p == "USART2"@ || p == "USART3"@ || p == "UART4"@ || p == "UART5"@ || p == "SPI2"@ || p == "SPI3"@ || p == "I2C1"@ || p == "I2C2"@ || p == "I2C3"@ || p == "FMPI2C1"@ || p == "CAN1"@ || p == "CAN2"@ || p == "SPDIFRX"@ || p == "CEC"@ || p == "TIM2"@ || p == "TIM3"@ || p == "TIM4"@ || p == "TIM5"@ || p == "TIM6"@ || p == "TIM7"@ || p == "TIM12"@ || p == "TIM13"@ || p == "TIM14"@ {
        Some(Bus::Apb1)
    } else if p == "DCMI"@ || p == "QUADSPI"@ || p == "FMC"@ {
        Some(Bus::Ahb1)
    } else {
        None
    }
}

/// The bus clock domain that feeds `peripheral` on the STM32F446RE, or
/// `None` if unknown (in which case the clock check is skipped).
pub fn peripheral_bus(p: &str) -> (r: Option<Bus>)
    ensures
        r == peripheral_bus_spec(p@),
{
    if str_eq(p, "USART1") || str_eq(p, "USART6") || str_eq(p, "SPI1") || str_eq(p, "SPI4") || str_eq(p, "SDIO") || str_eq(p, "ADC1") || str_eq(p, "ADC2") || str_eq(p, "ADC3") || str_eq(p, "SAI1") || str_eq(p, "SAI2") || str_eq(p, "TIM1") || str_eq(p, "TIM8") || str_eq(p, "TIM9") || str_eq(p, "TIM10") || str_eq(p, "TIM11") {
        Some(Bus::Apb2)
    } else if str_eq(p, "USART2") || str_eq(p, "USART3") || str_eq(p, "UART4") || str_eq(p, "UART5") || str_eq(p, "SPI2") || str_eq(p, "SPI3") || str_eq(p, "I2C1") || str_eq(p, "I2C2") || str_eq(p, "I2C3") || str_eq(p, "FMPI2C1") || str_eq(p, "CAN1") || str_eq(p, "CAN2") || str_eq(p, "SPDIFRX") || str_eq(p, "CEC") || str_eq(p, "TIM2") || str_eq(p, "TIM3") || str_eq(p, "TIM4") || str_eq(p, "TIM5") || str_eq(p, "TIM6") || str_eq(p, "TIM7") || str_eq(p, "TIM12") || str_eq(p, "TIM13") || str_eq(p, "TIM14") {
        Some(Bus::Apb1)
    } else if str_eq(p, "DCMI") || str_eq(p, "QUADSPI") || str_eq(p, "FMC") {
        Some(Bus::Ahb1)
    } else {
        None
    }
}


/// The compiler's bus for a clock-tree bus of the same name.
pub open spec fn same_bus(b: crate::db::clock::Bus) -> Bus {
    match b {
        crate::db::clock::Bus::Ahb1 => Bus::Ahb1,
        crate::db::clock::Bus::Apb1 => Bus::Apb1,
        crate::db::clock::Bus::Apb2 => Bus::Apb2,
    }
}

/// The compiler's own peripheral → bus function and the STM32F446RE clock
/// tree's table agree on every peripheral name: both `None`, or both the
/// same bus.
pub proof fn lemma_peripheral_bus_agrees(t: crate::db::clock::ClockTree, p: Seq<char>)
    requires
        t.clocks_model() == crate::db::clock::f446re_peripheral_clocks(),
    ensures
        peripheral_bus_spec(p) == match crate::db::clock::first_bus(t.clocks_model(), p) {
            Some(b) => Some(same_bus(b)),
            None => None::<Bus>,
        },
{
    reveal_strlit("USART1"); reveal_strlit("USART6"); reveal_strlit("SPI1"); reveal_strlit("SPI4");
    reveal_strlit("SDIO"); reveal_strlit("ADC1"); reveal_strlit("ADC2"); reveal_strlit("ADC3");
    reveal_strlit("SAI1"); reveal_strlit("SAI2"); reveal_strlit("TIM1"); reveal_strlit("TIM8");
    reveal_strlit("TIM9"); reveal_strlit("TIM10"); reveal_strlit("TIM11"); reveal_strlit("USART2");
    reveal_strlit("USART3"); reveal_strlit("UART4"); reveal_strlit("UART5"); reveal_strlit("SPI2");
    reveal_strlit("SPI3"); reveal_strlit("I2C1"); reveal_strlit("I2C2"); reveal_strlit("I2C3");
    reveal_strlit("FMPI2C1"); reveal_strlit("CAN1"); reveal_strlit("CAN2"); reveal_strlit("SPDIFRX");
    reveal_strlit("CEC"); reveal_strlit("TIM2"); reveal_strlit("TIM3"); reveal_strlit("TIM4");
    reveal_strlit("TIM5"); reveal_strlit("TIM6"); reveal_strlit("TIM7"); reveal_strlit("TIM12");
    reveal_strlit("TIM13"); reveal_strlit("TIM14"); reveal_strlit("DCMI"); reveal_strlit("QUADSPI");
    reveal_strlit("FMC");
    reveal_with_fuel(crate::db::clock::first_bus, 42);
}

} // verus!
