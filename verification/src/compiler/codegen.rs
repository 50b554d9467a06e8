//! HAL code generation: a validated configuration becomes `nucleus_config.h`
//! (a typed config struct per peripheral, the handle declarations and the
//! `Nucleus_Init()` prototype) and `nucleus_init.c` (the resolved config
//! instances, the handle definitions, and one `Nucleus_Init()` that enables
//! the clocks, muxes the pins with the database's AF numbers and calls the
//! stock ST HAL `HAL_*_Init` functions). The generated code never
//! reimplements the HAL; it only calls its `Init` functions.

use vstd::prelude::*;
use vstd::arithmetic::power2::{lemma2_to64, lemma_pow2_strictly_increases, lemma_pow2_unfold, pow2};
use crate::compiler::config::{integer_spec, lookup_value, pin_str_spec, Config, ConfigValue, Peripheral};
use crate::compiler::dma::{grants_model, grants_spec, resolve};
use crate::compiler::solver::{family_dma_rows, family_irq_rows};
use crate::compiler::{dma_map_for, irq_map_for};
use crate::compiler::irq::irq_enabled;
use crate::compiler::model::{kind_roles, peripheral_name, peripheral_name_spec, roles_for, roles_model, strip_trailing_digits, Role};
use crate::db::dma::{Controller, Direction, Slot};
use crate::db::irq::{first_row, IrqMap, PeripheralIrq};
use crate::db::{carries, parse_pin_spec, port_letter, AfMapping, Database, Pin, Port};
use crate::text::{
    ascii_lower, dec_digits, i64_to_string, int_digits, str_eq, to_ascii_lowercase, u64_to_string,
};

verus! {

/// The generated C sources.
#[derive(Debug, Clone, PartialEq, Eq)]
pub struct Generated {
    pub config_h: String,
    pub init_c: String,
}

/// The comment that opens both generated files.
pub const GENERATED_BANNER: &'static str = "/* Generated by Nucleus \u{2014} do not edit by hand.\n * Regenerate with `nucleus build`. Source of truth: stm32.toml. */\n\n";

/// The header's include guard, HAL include and C++ linkage opening.
pub const HEADER_OPEN: &'static str = "#ifndef NUCLEUS_CONFIG_H\n#define NUCLEUS_CONFIG_H\n\n#include \"stm32f4xx_hal.h\"\n\n#ifdef __cplusplus\nextern \"C\" {\n#endif\n\n";

/// The header's prototype and closing lines.
pub const HEADER_CLOSE: &'static str = "/* Initializes every peripheral declared in stm32.toml. Call once after\n   HAL_Init() and the system clock configuration. */\nvoid Nucleus_Init(void);\n\n#ifdef __cplusplus\n}\n#endif\n\n#endif /* NUCLEUS_CONFIG_H */\n";

/// The peripheral kinds code generation knows.
#[derive(Debug, Clone, Copy, PartialEq, Eq, Structural)]
pub enum Kind {
    Usart,
    Spi,
    I2c,
    Tim,
}

/// The kind an instance prefix (the name without its trailing digits) selects.
pub open spec fn kind_of_spec(prefix: Seq<char>) -> Option<Kind> {
    if prefix == "usart"@ || prefix == "uart"@ {
        Some(Kind::Usart)
    } else if prefix == "spi"@ {
        Some(Kind::Spi)
    } else if prefix == "i2c"@ || prefix == "fmpi2c"@ {
        Some(Kind::I2c)
    } else if prefix == "tim"@ {
        Some(Kind::Tim)
    } else {
        None
    }
}

/// The NVIC setup of a lowered peripheral: its vectors and preempt priority.
#[derive(Debug, Clone, Copy)]
pub struct IrqInit {
    pub vectors: &'static [&'static str],
    pub priority: i64,
}

/// One resolved DMA stream of a lowered peripheral.
#[derive(Debug, Clone, Copy)]
pub struct DmaInit {
    pub direction: Direction,
    pub slot: Slot,
    pub priority: i64,
}

/// The resolved parameters that land in a peripheral's config struct.
#[derive(Debug, Clone, Copy, PartialEq, Eq, Structural)]
pub enum Settings {
    /// `baud`, default 115200.
    Usart { baud: i64 },
    /// SPI `mode` (0–3; other values read as mode 0), default 0.
    Spi { mode: i64 },
    /// Whether `speed` is `"fast"` (any ASCII case): 400 kHz, else 100 kHz.
    I2c { fast: bool },
    /// The PWM timer's prescaler and period.
    Tim { prescaler: u32, period: u32 },
}

/// One peripheral lowered to everything code generation needs.
#[derive(Debug, Clone)]
pub struct Lowered {
    /// HAL instance name, e.g. `USART2`.
    pub instance: String,
    /// Handle variable, e.g. `huart2`.
    pub handle: String,
    /// HAL handle type, e.g. `UART_HandleTypeDef`.
    pub handle_type: &'static str,
    /// Per-instance config struct type, e.g. `Nucleus_USART2_Config`.
    pub config_type: String,
    pub kind: Kind,
    pub settings: Settings,
    /// Resolved pin uses: `(pin, af, signal)`.
    pub pins: Vec<(Pin, u8, &'static str)>,
    pub irq: Option<IrqInit>,
    pub dma: Vec<DmaInit>,
}

/// A lowered peripheral as plain values.
pub struct LoweredView {
    pub instance: Seq<char>,
    pub handle: Seq<char>,
    pub handle_type: Seq<char>,
    pub config_type: Seq<char>,
    pub kind: Kind,
    pub settings: Settings,
    pub pins: Seq<(Pin, u8, Seq<char>)>,
    pub irq: Option<(Seq<Seq<char>>, i64)>,
    pub dma: Seq<(Direction, Slot, i64)>,
}

impl View for Lowered {
    type V = LoweredView;

    open spec fn view(&self) -> LoweredView {
        LoweredView {
            instance: self.instance@,
            handle: self.handle@,
            handle_type: self.handle_type@,
            config_type: self.config_type@,
            kind: self.kind,
            settings: self.settings,
            pins: self.pins@.map_values(|x: (Pin, u8, &'static str)| (x.0, x.1, x.2@)),
            irq: match self.irq {
                Some(i) => Some((i.vectors@.map_values(|v: &'static str| v@), i.priority)),
                None => None,
            },
            dma: self.dma@.map_values(|d: DmaInit| (d.direction, d.slot, d.priority)),
        }
    }
}

/// The AF number of the first database row mapping `signal` of
/// `peripheral` onto `pin`.
pub open spec fn first_af(db: Seq<AfMapping>, pin: Pin, peripheral: Seq<char>, signal: Seq<char>) -> Option<u8>
    decreases db.len(),
{
    if db.len() == 0 {
        None
    } else if db[0].pin == pin && carries(db[0], peripheral, signal) {
        Some(db[0].af)
    } else {
        first_af(db.drop_first(), pin, peripheral, signal)
    }
}

/// The resolved pin uses of one peripheral: each role set to a valid pin
/// that carries its signal, with the pin's AF number.
pub open spec fn lower_pins(
    db: Seq<AfMapping>,
    name: Seq<char>,
    table: Seq<(String, ConfigValue)>,
    roles: Seq<(Seq<char>, Seq<char>, bool)>,
) -> Seq<(Pin, u8, Seq<char>)>
    decreases roles.len(),
{
    if roles.len() == 0 {
        Seq::empty()
    } else {
        let r = roles.last();
        lower_pins(db, name, table, roles.drop_last()) + match pin_str_spec(table, r.0) {
            Some(v) => match parse_pin_spec(v) {
                Some(pin) => match first_af(db, pin, name, r.1) {
                    Some(af) => seq![(pin, af, r.1)],
                    None => Seq::empty(),
                },
                None => Seq::empty(),
            },
            None => Seq::empty(),
        }
    }
}

/// The slot of the last grant for `(name, direction)`.
pub open spec fn granted_slot(grants: Seq<(Seq<char>, Direction, Slot)>, name: Seq<char>, d: Direction) -> Option<Slot>
    decreases grants.len(),
{
    if grants.len() == 0 {
        None
    } else if grants.last().0 == name && grants.last().1 == d {
        Some(grants.last().2)
    } else {
        granted_slot(grants.drop_last(), name, d)
    }
}

/// The handle prefix and HAL handle type of a kind.
pub open spec fn handle_prefix(k: Kind) -> Seq<char> {
    match k {
        Kind::Usart => "huart"@,
        Kind::Spi => "hspi"@,
        Kind::I2c => "hi2c"@,
        Kind::Tim => "htim"@,
    }
}

pub open spec fn handle_type_of(k: Kind) -> Seq<char> {
    match k {
        Kind::Usart => "UART_HandleTypeDef"@,
        Kind::Spi => "SPI_HandleTypeDef"@,
        Kind::I2c => "I2C_HandleTypeDef"@,
        Kind::Tim => "TIM_HandleTypeDef"@,
    }
}

/// An integer setting, or a default.
pub open spec fn int_or(table: Seq<(String, ConfigValue)>, key: Seq<char>, d: i64) -> i64 {
    match integer_spec(table, key) {
        Some(v) => v,
        None => d,
    }
}

/// The DMA streams of a lowered peripheral: none for a timer, else the
/// granted TX stream then the granted RX stream.
pub open spec fn lower_dma(kind: Kind, name: Seq<char>, prio: i64, grants: Seq<(Seq<char>, Direction, Slot)>) -> Seq<(Direction, Slot, i64)> {
    if kind == Kind::Tim {
        Seq::empty()
    } else {
        (match granted_slot(grants, name, Direction::Tx) {
            Some(s) => seq![(Direction::Tx, s, prio)],
            None => Seq::empty(),
        }) + (match granted_slot(grants, name, Direction::Rx) {
            Some(s) => seq![(Direction::Rx, s, prio)],
            None => Seq::empty(),
        })
    }
}

/// The timer's duty resolution in bits: `duty_resolution_bits` (default
/// 16) clamped to 1..=31.
pub open spec fn duty_bits(table: Seq<(String, ConfigValue)>) -> nat {
    let b = int_or(table, "duty_resolution_bits"@, 16);
    if b < 1 {
        1
    } else if b > 31 {
        31
    } else {
        b as nat
    }
}

/// The requested PWM frequency: `frequency_hz` (default 1000), at least 1.
pub open spec fn pwm_freq(table: Seq<(String, ConfigValue)>) -> nat {
    let f = int_or(table, "frequency_hz"@, 1000);
    if f < 1 {
        1
    } else {
        f as nat
    }
}

/// The timer clock estimate: `[device].clock_hz` (at least 1), default 180 MHz.
pub open spec fn timer_clock(clock_hz: Option<u64>) -> nat {
    match clock_hz {
        Some(c) => if c >= 1 {
            c as nat
        } else {
            1
        },
        None => 180_000_000,
    }
}

/// Whether the timer divisor `frequency × 2^bits` fits in 64 bits.
pub open spec fn tim_fits(table: Seq<(String, ConfigValue)>) -> bool {
    pwm_freq(table) * pow2(duty_bits(table)) <= u64::MAX
}

/// `(Prescaler, Period)` of a PWM timer: `Period = 2^bits − 1` and
/// `Prescaler = timer_clk / (freq × 2^bits) − 1`, floored at 0 and capped
/// at `u32::MAX`.
pub open spec fn tim_timing_spec(table: Seq<(String, ConfigValue)>, clock_hz: Option<u64>) -> (nat, nat) {
    let q = timer_clock(clock_hz) / (pwm_freq(table) * pow2(duty_bits(table)));
    let psc: nat = if q >= 1 {
        (q - 1) as nat
    } else {
        0
    };
    (if psc > u32::MAX {
        u32::MAX as nat
    } else {
        psc
    }, (pow2(duty_bits(table)) - 1) as nat)
}

/// Whether the I2C `speed` setting is `"fast"`, in any ASCII case.
pub open spec fn is_fast(table: Seq<(String, ConfigValue)>) -> bool {
    match lookup_value(table, "speed"@) {
        Some(ConfigValue::String(v)) => v@.map_values(|c: char| ascii_lower(c)) == "fast"@,
        _ => false,
    }
}

/// The config-struct parameters of a peripheral of kind `kind`.
pub open spec fn settings_spec(kind: Kind, table: Seq<(String, ConfigValue)>, clock_hz: Option<u64>) -> Settings {
    match kind {
        Kind::Usart => Settings::Usart { baud: int_or(table, "baud"@, 115200) },
        Kind::Spi => Settings::Spi { mode: int_or(table, "mode"@, 0) },
        Kind::I2c => Settings::I2c { fast: is_fast(table) },
        Kind::Tim => Settings::Tim {
            prescaler: tim_timing_spec(table, clock_hz).0 as u32,
            period: tim_timing_spec(table, clock_hz).1 as u32,
        },
    }
}

/// What one `[peripherals.X]` table lowers to: nothing for an unmodelled
/// kind; else its HAL names, resolved pins, NVIC setup (when `irq = true`
/// and the family models a vector) and granted DMA streams.
pub open spec fn lower_spec(
    instance: Seq<char>,
    table: Seq<(String, ConfigValue)>,
    db: Seq<AfMapping>,
    irq_rows: Seq<PeripheralIrq>,
    grants: Seq<(Seq<char>, Direction, Slot)>,
    clock_hz: Option<u64>,
) -> Option<LoweredView> {
    let prefix = strip_trailing_digits(instance);
    match (kind_of_spec(prefix), kind_roles(prefix)) {
        (Some(kind), Some(roles)) => {
            let name = peripheral_name_spec(instance);
            let digits = instance.skip(prefix.len() as int);
            let vectors = match first_row(irq_rows, name) {
                Some(row) => row.vectors@.map_values(|v: &'static str| v@),
                None => Seq::empty(),
            };
            Some(LoweredView {
                instance: name,
                handle: handle_prefix(kind) + digits,
                handle_type: handle_type_of(kind),
                config_type: "Nucleus_"@ + name + "_Config"@,
                kind,
                settings: settings_spec(kind, table, clock_hz),
                pins: lower_pins(db, name, table, roles),
                irq: if irq_enabled(table) && vectors.len() > 0 {
                    Some((vectors, int_or(table, "irq_priority"@, 0)))
                } else {
                    None
                },
                dma: lower_dma(kind, name, int_or(table, "dma_priority"@, 0), grants),
            })
        },
        _ => None,
    }
}


/// The length of `instance` without its trailing digits.
fn digits_start(instance: &str) -> (end: usize)
    ensures
        end <= instance@.len(),
        instance@.subrange(0, end as int) == strip_trailing_digits(instance@),
{
    let mut end = instance.unicode_len();
    assert(instance@.subrange(0, end as int) =~= instance@);
    while end > 0
        invariant
            end <= instance@.len(),
            strip_trailing_digits(instance@) == strip_trailing_digits(instance@.subrange(0, end as int)),
        ensures
            end <= instance@.len(),
            strip_trailing_digits(instance@) == strip_trailing_digits(instance@.subrange(0, end as int)),
            end == 0 || !('0' <= instance@[end - 1] && instance@[end - 1] <= '9'),
        decreases end,
    {
        let c = instance.get_char(end - 1);
        if !('0' <= c && c <= '9') {
            break;
        }
        assert(instance@.subrange(0, end as int).drop_last() =~= instance@.subrange(0, end - 1));
        end -= 1;
    }
    end
}

/// The kind an instance name selects by its prefix (`"usart2"` → USART).
pub fn kind_of(instance: &str) -> (r: Option<Kind>)
    ensures
        r == kind_of_spec(strip_trailing_digits(instance@)),
{
    let end = digits_start(instance);
    let prefix = instance.substring_char(0, end);
    if str_eq(prefix, "usart") || str_eq(prefix, "uart") {
        Some(Kind::Usart)
    } else if str_eq(prefix, "spi") {
        Some(Kind::Spi)
    } else if str_eq(prefix, "i2c") || str_eq(prefix, "fmpi2c") {
        Some(Kind::I2c)
    } else if str_eq(prefix, "tim") {
        Some(Kind::Tim)
    } else {
        None
    }
}

proof fn lemma_first_af_at(db: Seq<AfMapping>, pin: Pin, peripheral: Seq<char>, signal: Seq<char>, i: int)
    requires
        0 <= i < db.len(),
        db[i].pin == pin && carries(db[i], peripheral, signal),
        forall|j: int| 0 <= j < i ==> !((#[trigger] db[j]).pin == pin && carries(db[j], peripheral, signal)),
    ensures
        first_af(db, pin, peripheral, signal) == Some(db[i].af),
    decreases i,
{
    if i > 0 {
        assert(!(db[0].pin == pin && carries(db[0], peripheral, signal)));
        assert forall|j: int| 0 <= j < i - 1 implies !((#[trigger] db.drop_first()[j]).pin == pin
            && carries(db.drop_first()[j], peripheral, signal)) by {
            assert(db.drop_first()[j] == db[j + 1]);
        }
        lemma_first_af_at(db.drop_first(), pin, peripheral, signal, i - 1);
    }
}

proof fn lemma_first_af_none(db: Seq<AfMapping>, pin: Pin, peripheral: Seq<char>, signal: Seq<char>)
    requires
        forall|i: int| 0 <= i < db.len() ==> !((#[trigger] db[i]).pin == pin && carries(db[i], peripheral, signal)),
    ensures
        first_af(db, pin, peripheral, signal) is None,
    decreases db.len(),
{
    if db.len() > 0 {
        assert(!(db[0].pin == pin && carries(db[0], peripheral, signal)));
        assert forall|j: int| 0 <= j < db.len() - 1 implies !((#[trigger] db.drop_first()[j]).pin == pin
            && carries(db.drop_first()[j], peripheral, signal)) by {
            assert(db.drop_first()[j] == db[j + 1]);
        }
        lemma_first_af_none(db.drop_first(), pin, peripheral, signal);
    }
}

/// The AF number of the database's first mapping of `signal` of
/// `peripheral` onto `pin`.
fn resolve_af(db: &Database, pin: Pin, peripheral: &str, signal: &str) -> (r: Option<u8>)
    ensures
        r == first_af(db@, pin, peripheral@, signal@),
{
    let r = db.find_af(pin, peripheral, signal);
    proof {
        match r {
            Some(af) => {
                let i = choose|i: int|
                    0 <= i < db@.len() && (#[trigger] db@[i]).pin == pin && carries(db@[i], peripheral@, signal@)
                        && db@[i].af == af && forall|j: int| 0 <= j < i ==> !((#[trigger] db@[j]).pin == pin && carries(db@[j], peripheral@, signal@));
                lemma_first_af_at(db@, pin, peripheral@, signal@, i);
            },
            None => lemma_first_af_none(db@, pin, peripheral@, signal@),
        }
    }
    r
}

/// The slot of the last grant for `(name, direction)`.
fn find_grant(grants: &Vec<(String, Direction, Slot)>, name: &str, d: Direction) -> (r: Option<Slot>)
    ensures
        r == granted_slot(grants_model(grants@), name@, d),
{
    let mut i = grants.len();
    assert(grants_model(grants@).take(i as int) =~= grants_model(grants@));
    while i > 0
        invariant
            i <= grants@.len(),
            granted_slot(grants_model(grants@), name@, d) == granted_slot(grants_model(grants@).take(i as int), name@, d),
        decreases i,
    {
        let ghost t = grants_model(grants@).take(i as int);
        assert(t.last() == grants_model(grants@)[i - 1]);
        if str_eq(grants[i - 1].0.as_str(), name) && grants[i - 1].1 == d {
            return Some(grants[i - 1].2);
        }
        assert(t.drop_last() =~= grants_model(grants@).take(i - 1));
        i -= 1;
    }
    None
}

/// The resolved pin uses of one peripheral, in role order.
fn lower_pin_uses(db: &Database, name: &str, table: &Peripheral, roles: &'static [Role]) -> (pins: Vec<(Pin, u8, &'static str)>)
    ensures
        pins@.map_values(|x: (Pin, u8, &'static str)| (x.0, x.1, x.2@)) == lower_pins(db@, name@, table.0@, roles_model(roles@)),
{
    let mut pins: Vec<(Pin, u8, &'static str)> = Vec::new();
    let mut k: usize = 0;
    while k < roles.len()
        invariant
            0 <= k <= roles@.len(),
            pins@.map_values(|x: (Pin, u8, &'static str)| (x.0, x.1, x.2@))
                == lower_pins(db@, name@, table.0@, roles_model(roles@).take(k as int)),
        decreases roles@.len() - k,
    {
        let role = roles[k];
        let ghost rm = roles_model(roles@).take(k + 1);
        let ghost before = pins@.map_values(|x: (Pin, u8, &'static str)| (x.0, x.1, x.2@));
        assert(rm.drop_last() =~= roles_model(roles@).take(k as int));
        assert(rm.last() == (role.key@, role.signal@, role.required));
        match table.pin_str(role.key) {
            Some(value) => match Pin::parse(value) {
                Ok(pin) => match resolve_af(db, pin, name, role.signal) {
                    Some(af) => {
                        pins.push((pin, af, role.signal));
                        assert(pins@.map_values(|x: (Pin, u8, &'static str)| (x.0, x.1, x.2@))
                            =~= before + seq![(pin, af, role.signal@)]);
                    },
                    None => {},
                },
                Err(_) => {},
            },
            None => {},
        }
        k += 1;
    }
    assert(roles_model(roles@).take(roles@.len() as int) =~= roles_model(roles@));
    pins
}

/// The NVIC setup of a peripheral: when `irq = true` and the family models
/// a vector for it, its vectors and `irq_priority` (default 0).
fn lower_irq(table: &Peripheral, irq_map: &IrqMap, name: &str) -> (r: Option<IrqInit>)
    ensures
        r matches Some(i) ==> irq_enabled(table.0@),
        match (r, first_row(irq_map@, name@)) {
            (Some(i), Some(row)) => i.vectors@ == row.vectors@ && row.vectors@.len() > 0 && i.priority == int_or(table.0@, "irq_priority"@, 0),
            (Some(i), None) => false,
            (None, Some(row)) => !irq_enabled(table.0@) || row.vectors@.len() == 0,
            (None, None) => true,
        },
{
    match table.get("irq") {
        Some(ConfigValue::Boolean(true)) => {
            let vectors = irq_map.vectors(name);
            if vectors.len() == 0 {
                None
            } else {
                let priority = match table.integer("irq_priority") {
                    Some(v) => v,
                    None => 0,
                };
                Some(IrqInit { vectors, priority })
            }
        },
        _ => None,
    }
}

/// `2^bits`.
fn pow2_u64(bits: u32) -> (r: u64)
    requires
        bits <= 31,
    ensures
        r == pow2(bits as nat),
{
    proof {
        lemma2_to64();
    }
    let mut p: u64 = 1;
    let mut i: u32 = 0;
    while i < bits
        invariant
            i <= bits <= 31,
            p == pow2(i as nat),
        decreases bits - i,
    {
        proof {
            lemma2_to64();
            lemma_pow2_strictly_increases(i as nat, 31);
            lemma_pow2_unfold((i + 1) as nat);
        }
        p = p * 2;
        i += 1;
    }
    p
}

/// Resolve a PWM timer's `(Prescaler, Period)` from the requested frequency
/// and duty resolution, taking the device `clock_hz` as the timer clock
/// estimate.
pub fn tim_timing(table: &Peripheral, clock_hz: Option<u64>) -> (r: (u32, u32))
    requires
        tim_fits(table.0@),
    ensures
        (r.0 as nat, r.1 as nat) == tim_timing_spec(table.0@, clock_hz),
{
    let b = match table.integer("duty_resolution_bits") {
        Some(v) => v,
        None => 16,
    };
    let bits: u32 = if b < 1 {
        1
    } else if b > 31 {
        31
    } else {
        b as u32
    };
    let arr_plus_one = pow2_u64(bits);
    proof {
        vstd::arithmetic::power2::lemma_pow2_pos(bits as nat);
        lemma2_to64();
        if bits < 31 {
            lemma_pow2_strictly_increases(bits as nat, 31);
        }
    }
    let f = match table.integer("frequency_hz") {
        Some(v) => v,
        None => 1000,
    };
    let freq: u64 = if f < 1 {
        1
    } else {
        f as u64
    };
    let timer_clk: u64 = match clock_hz {
        Some(c) => if c >= 1 {
            c
        } else {
            1
        },
        None => 180_000_000,
    };
    assert(freq as nat == pwm_freq(table.0@));
    assert(bits as nat == duty_bits(table.0@));
    let divisor = freq * arr_plus_one;
    assert(divisor >= 1) by (nonlinear_arith)
        requires
            freq >= 1,
            arr_plus_one >= 1,
            divisor == freq * arr_plus_one,
    ;
    let q = timer_clk / divisor;
    let psc: u64 = if q >= 1 {
        q - 1
    } else {
        0
    };
    let psc32: u32 = if psc > 0xFFFF_FFFF {
        0xFFFF_FFFF
    } else {
        psc as u32
    };
    (psc32, (arr_plus_one - 1) as u32)
}

/// Whether the table's `speed` is `"fast"`, in any ASCII case.
fn speed_is_fast(table: &Peripheral) -> (r: bool)
    ensures
        r == is_fast(table.0@),
{
    match table.get("speed") {
        Some(ConfigValue::String(v)) => {
            let low = to_ascii_lowercase(v.as_str());
            str_eq(low.as_str(), "fast")
        },
        _ => false,
    }
}

/// The config-struct parameters of a peripheral of kind `kind`.
pub fn settings_for(kind: Kind, table: &Peripheral, clock_hz: Option<u64>) -> (r: Settings)
    requires
        kind == Kind::Tim ==> tim_fits(table.0@),
    ensures
        r == settings_spec(kind, table.0@, clock_hz),
{
    match kind {
        Kind::Usart => Settings::Usart {
            baud: match table.integer("baud") {
                Some(v) => v,
                None => 115200,
            },
        },
        Kind::Spi => Settings::Spi {
            mode: match table.integer("mode") {
                Some(v) => v,
                None => 0,
            },
        },
        Kind::I2c => Settings::I2c { fast: speed_is_fast(table) },
        Kind::Tim => {
            let (prescaler, period) = tim_timing(table, clock_hz);
            Settings::Tim { prescaler, period }
        },
    }
}

/// Lower one `[peripherals.X]` table, or `None` for an unmodelled kind.
pub fn lower(
    instance: &str,
    table: &Peripheral,
    db: &Database,
    irq_map: &IrqMap,
    grants: &Vec<(String, Direction, Slot)>,
    clock_hz: Option<u64>,
) -> (r: Option<Lowered>)
    requires
        kind_of_spec(strip_trailing_digits(instance@)) == Some(Kind::Tim) ==> tim_fits(table.0@),
    ensures
        match r {
            Some(l) => lower_spec(instance@, table.0@, db@, irq_map@, grants_model(grants@), clock_hz) == Some(l@),
            None => lower_spec(instance@, table.0@, db@, irq_map@, grants_model(grants@), clock_hz) is None,
        },
{
    let kind = match kind_of(instance) {
        Some(k) => k,
        None => return None,
    };
    let roles = match roles_for(instance) {
        Some(t) => t,
        None => return None,
    };
    let name = peripheral_name(instance);
    let end = digits_start(instance);
    let digits = instance.substring_char(end, instance.unicode_len());
    let (prefix, handle_type): (&'static str, &'static str) = match kind {
        Kind::Usart => ("huart", "UART_HandleTypeDef"),
        Kind::Spi => ("hspi", "SPI_HandleTypeDef"),
        Kind::I2c => ("hi2c", "I2C_HandleTypeDef"),
        Kind::Tim => ("htim", "TIM_HandleTypeDef"),
    };
    let settings = settings_for(kind, table, clock_hz);
    let pins = lower_pin_uses(db, name.as_str(), table, roles);
    let irq = lower_irq(table, irq_map, name.as_str());
    let dma_priority = match table.integer("dma_priority") {
        Some(v) => v,
        None => 0,
    };
    let mut dma: Vec<DmaInit> = Vec::new();
    if kind != Kind::Tim {
        match find_grant(grants, name.as_str(), Direction::Tx) {
            Some(slot) => dma.push(DmaInit { direction: Direction::Tx, slot, priority: dma_priority }),
            None => {},
        }
        match find_grant(grants, name.as_str(), Direction::Rx) {
            Some(slot) => dma.push(DmaInit { direction: Direction::Rx, slot, priority: dma_priority }),
            None => {},
        }
    }
    let mut config_type = String::from_str("Nucleus_");
    config_type.append(name.as_str());
    config_type.append("_Config");
    let mut handle = String::from_str(prefix);
    handle.append(digits);
    let l = Lowered { instance: name, handle, handle_type, config_type, kind, settings, pins, irq, dma };
    proof {
        let ghost spec = lower_spec(instance@, table.0@, db@, irq_map@, grants_model(grants@), clock_hz)->0;
        assert(digits@ =~= instance@.skip(strip_trailing_digits(instance@).len() as int));
        assert(l@.dma =~= spec.dma);
        assert(l@.pins =~= spec.pins);
        assert(l@.handle =~= spec.handle);
        assert(l@.config_type =~= spec.config_type);
        assert(l@.irq == spec.irq);
    }
    Some(l)
}


// ---------------------------------------------------------------------------
// The text of the generated files.
// ---------------------------------------------------------------------------

/// A lowered list as plain values.
pub open spec fn views_of(ls: Seq<Lowered>) -> Seq<LoweredView> {
    ls.map_values(|l: Lowered| l@)
}

/// `    <h>.Init.<field> = <val>;`
pub open spec fn init_line_spec(h: Seq<char>, field: Seq<char>, val: Seq<char>) -> Seq<char> {
    "    "@ + h + ".Init."@ + field + " = "@ + val + ";\n"@
}

/// The DMA handle variable of a stream, e.g. `hdma_usart2_rx`.
pub open spec fn dma_handle_spec(instance: Seq<char>, d: Direction) -> Seq<char> {
    "hdma_"@ + instance.map_values(|c: char| ascii_lower(c)) + match d {
        Direction::Tx => "_tx"@,
        Direction::Rx => "_rx"@,
    }
}

/// The config-struct fields of a kind, one `uint32_t` line each.
pub open spec fn struct_fields_spec(k: Kind) -> Seq<char> {
    match k {
        Kind::Usart => "    uint32_t BaudRate;\n"@,
        Kind::Spi => "    uint32_t CLKPolarity;\n"@ + "    uint32_t CLKPhase;\n"@,
        Kind::I2c => "    uint32_t ClockSpeed;\n"@,
        Kind::Tim => "    uint32_t Prescaler;\n"@ + "    uint32_t Period;\n"@,
    }
}

/// `extern DMA_HandleTypeDef <h>;` for each stream.
pub open spec fn dma_externs_spec(instance: Seq<char>, ds: Seq<(Direction, Slot, i64)>) -> Seq<char>
    decreases ds.len(),
{
    if ds.len() == 0 {
        Seq::empty()
    } else {
        dma_externs_spec(instance, ds.drop_last()) + ("extern DMA_HandleTypeDef "@ + dma_handle_spec(instance, ds.last().0) + ";\n"@)
    }
}

/// One peripheral's part of `nucleus_config.h`.
pub open spec fn header_block_spec(p: LoweredView) -> Seq<char> {
    "/* "@ + p.instance + " \u{2014} resolved configuration */\n"@ + "typedef struct {\n"@ + struct_fields_spec(p.kind)
        + "} "@ + p.config_type + ";\n"@ + "extern "@ + p.handle_type + " "@ + p.handle + ";\n"@
        + dma_externs_spec(p.instance, p.dma) + "\n"@
}

pub open spec fn header_blocks_spec(ls: Seq<LoweredView>) -> Seq<char>
    decreases ls.len(),
{
    if ls.len() == 0 {
        Seq::empty()
    } else {
        header_blocks_spec(ls.drop_last()) + header_block_spec(ls.last())
    }
}

/// The whole of `nucleus_config.h`.
pub open spec fn config_header_spec(ls: Seq<LoweredView>) -> Seq<char> {
    GENERATED_BANNER@ + HEADER_OPEN@ + header_blocks_spec(ls) + HEADER_CLOSE@
}

fn dma_handle_name(instance: &str, d: Direction) -> (r: String)
    ensures
        r@ == dma_handle_spec(instance@, d),
{
    let mut r = String::from_str("hdma_");
    let low = to_ascii_lowercase(instance);
    r.append(low.as_str());
    match d {
        Direction::Tx => r.append("_tx"),
        Direction::Rx => r.append("_rx"),
    }
    r
}

fn struct_fields(k: Kind) -> (r: String)
    ensures
        r@ == struct_fields_spec(k),
{
    match k {
        Kind::Usart => String::from_str("    uint32_t BaudRate;\n"),
        Kind::Spi => {
            let mut r = String::from_str("    uint32_t CLKPolarity;\n");
            r.append("    uint32_t CLKPhase;\n");
            r
        },
        Kind::I2c => String::from_str("    uint32_t ClockSpeed;\n"),
        Kind::Tim => {
            let mut r = String::from_str("    uint32_t Prescaler;\n");
            r.append("    uint32_t Period;\n");
            r
        },
    }
}

fn dma_externs(instance: &str, ds: &Vec<DmaInit>) -> (r: String)
    ensures
        r@ == dma_externs_spec(instance@, ds@.map_values(|d: DmaInit| (d.direction, d.slot, d.priority))),
{
    let ghost dv = ds@.map_values(|d: DmaInit| (d.direction, d.slot, d.priority));
    let mut r = String::new();
    let mut j: usize = 0;
    assert(dv.take(0) =~= Seq::<(Direction, Slot, i64)>::empty());
    while j < ds.len()
        invariant
            0 <= j <= ds@.len(),
            dv == ds@.map_values(|d: DmaInit| (d.direction, d.slot, d.priority)),
            r@ == dma_externs_spec(instance@, dv.take(j as int)),
        decreases ds@.len() - j,
    {
        let h = dma_handle_name(instance, ds[j].direction);
        let mut line = String::from_str("extern DMA_HandleTypeDef ");
        line.append(h.as_str());
        line.append(";\n");
        r.append(line.as_str());
        assert(dv.take(j + 1).drop_last() =~= dv.take(j as int));
        j += 1;
    }
    assert(dv.take(ds@.len() as int) =~= dv);
    r
}

fn header_block(p: &Lowered) -> (s: String)
    ensures
        s@ == header_block_spec(p@),
{
    let mut s = String::from_str("/* ");
    s.append(p.instance.as_str());
    s.append(" \u{2014} resolved configuration */\n");
    s.append("typedef struct {\n");
    s.append(struct_fields(p.kind).as_str());
    s.append("} ");
    s.append(p.config_type.as_str());
    s.append(";\n");
    s.append("extern ");
    s.append(p.handle_type);
    s.append(" ");
    s.append(p.handle.as_str());
    s.append(";\n");
    s.append(dma_externs(p.instance.as_str(), &p.dma).as_str());
    s.append("\n");
    s
}

/// Render `nucleus_config.h`: a typed config struct per peripheral plus the
/// `extern` HAL handle declarations and the `Nucleus_Init()` prototype.
pub fn config_header(lowered: &Vec<Lowered>) -> (s: String)
    ensures
        s@ == config_header_spec(views_of(lowered@)),
{
    let mut blocks = String::new();
    let mut i: usize = 0;
    assert(views_of(lowered@).take(0) =~= Seq::<LoweredView>::empty());
    while i < lowered.len()
        invariant
            0 <= i <= lowered@.len(),
            blocks@ == header_blocks_spec(views_of(lowered@).take(i as int)),
        decreases lowered@.len() - i,
    {
        blocks.append(header_block(&lowered[i]).as_str());
        assert(views_of(lowered@).take(i + 1).drop_last() =~= views_of(lowered@).take(i as int));
        i += 1;
    }
    assert(views_of(lowered@).take(lowered@.len() as int) =~= views_of(lowered@));
    let mut s = String::from_str(GENERATED_BANNER);
    s.append(HEADER_OPEN);
    s.append(blocks.as_str());
    s.append(HEADER_CLOSE);
    s
}


/// `<handle type> <handle>;` plus each DMA handle's definition.
pub open spec fn dma_defs_spec(instance: Seq<char>, ds: Seq<(Direction, Slot, i64)>) -> Seq<char>
    decreases ds.len(),
{
    if ds.len() == 0 {
        Seq::empty()
    } else {
        dma_defs_spec(instance, ds.drop_last()) + ("DMA_HandleTypeDef "@ + dma_handle_spec(instance, ds.last().0) + ";\n"@)
    }
}

pub open spec fn handle_def_spec(p: LoweredView) -> Seq<char> {
    p.handle_type + " "@ + p.handle + ";\n"@ + dma_defs_spec(p.instance, p.dma)
}

pub open spec fn handle_defs_spec(ls: Seq<LoweredView>) -> Seq<char>
    decreases ls.len(),
{
    if ls.len() == 0 {
        Seq::empty()
    } else {
        handle_defs_spec(ls.drop_last()) + handle_def_spec(ls.last())
    }
}

/// The config-struct variable of an instance, e.g. `usart2_config`.
pub open spec fn config_var_spec(instance: Seq<char>) -> Seq<char> {
    instance.map_values(|c: char| ascii_lower(c)) + "_config"@
}

/// SPI mode → `(CLKPolarity, CLKPhase)` HAL macros; modes other than 1–3
/// read as mode 0.
pub open spec fn spi_mode_spec(mode: i64) -> (Seq<char>, Seq<char>) {
    if mode == 1 {
        ("SPI_POLARITY_LOW"@, "SPI_PHASE_2EDGE"@)
    } else if mode == 2 {
        ("SPI_POLARITY_HIGH"@, "SPI_PHASE_1EDGE"@)
    } else if mode == 3 {
        ("SPI_POLARITY_HIGH"@, "SPI_PHASE_2EDGE"@)
    } else {
        ("SPI_POLARITY_LOW"@, "SPI_PHASE_1EDGE"@)
    }
}

/// The initializer lines of a config struct.
pub open spec fn settings_lines_spec(st: Settings) -> Seq<char> {
    match st {
        Settings::Usart { baud } => "    .BaudRate = "@ + int_digits(baud as int) + "u,\n"@,
        Settings::Spi { mode } => "    .CLKPolarity = "@ + spi_mode_spec(mode).0 + ",\n"@ + "    .CLKPhase = "@ + spi_mode_spec(mode).1
            + ",\n"@,
        Settings::I2c { fast } => "    .ClockSpeed = "@ + (if fast {
            "400000"@
        } else {
            "100000"@
        }) + "u,\n"@,
        Settings::Tim { prescaler, period } => "    .Prescaler = "@ + dec_digits(prescaler as nat) + "u,\n"@ + "    .Period = "@
            + dec_digits(period as nat) + "u,\n"@,
    }
}

/// `static const <type> <var> = { ... };` for one peripheral.
pub open spec fn config_instance_spec(p: LoweredView) -> Seq<char> {
    "static const "@ + p.config_type + " "@ + config_var_spec(p.instance) + " = {\n"@ + settings_lines_spec(p.settings) + "};\n\n"@
}

pub open spec fn config_instances_spec(ls: Seq<LoweredView>) -> Seq<char>
    decreases ls.len(),
{
    if ls.len() == 0 {
        Seq::empty()
    } else {
        config_instances_spec(ls.drop_last()) + config_instance_spec(ls.last())
    }
}

/// Whether some resolved pin of `ls` is on `port`.
pub open spec fn uses_port(ls: Seq<LoweredView>, port: Port) -> bool {
    exists|i: int, j: int| 0 <= i < ls.len() && 0 <= j < ls[i].pins.len() && (#[trigger] ls[i].pins[j]).0.port == port
}

pub open spec fn port_clock_spec(ls: Seq<LoweredView>, port: Port) -> Seq<char> {
    if uses_port(ls, port) {
        "    __HAL_RCC_GPIO"@ + seq![port_letter(port)] + "_CLK_ENABLE();\n"@
    } else {
        Seq::empty()
    }
}

/// One clock-enable line per used port, in port order.
pub open spec fn port_clocks_spec(ls: Seq<LoweredView>) -> Seq<char> {
    port_clock_spec(ls, Port::A) + port_clock_spec(ls, Port::B) + port_clock_spec(ls, Port::C) + port_clock_spec(ls, Port::D)
        + port_clock_spec(ls, Port::E) + port_clock_spec(ls, Port::F) + port_clock_spec(ls, Port::G) + port_clock_spec(ls, Port::H)
}

/// The GPIO port clock section; nothing when no pin was resolved.
pub open spec fn gpio_clocks_spec(ls: Seq<LoweredView>) -> Seq<char> {
    if port_clocks_spec(ls).len() == 0 {
        Seq::empty()
    } else {
        "    /* GPIO port clocks */\n"@ + port_clocks_spec(ls) + "\n"@
    }
}

/// Whether some resolved DMA stream of `ls` is on controller `c`.
pub open spec fn uses_controller(ls: Seq<LoweredView>, c: Controller) -> bool {
    exists|i: int, j: int| 0 <= i < ls.len() && 0 <= j < ls[i].dma.len() && (#[trigger] ls[i].dma[j]).1.controller == c
}

pub open spec fn controller_name_spec(c: Controller) -> Seq<char> {
    match c {
        Controller::Dma1 => "DMA1"@,
        Controller::Dma2 => "DMA2"@,
    }
}

pub open spec fn controller_clock_spec(ls: Seq<LoweredView>, c: Controller) -> Seq<char> {
    if uses_controller(ls, c) {
        "    __HAL_RCC_"@ + controller_name_spec(c) + "_CLK_ENABLE();\n"@
    } else {
        Seq::empty()
    }
}

/// The DMA controller clock section; nothing when no stream was resolved.
pub open spec fn dma_clocks_spec(ls: Seq<LoweredView>) -> Seq<char> {
    let body = controller_clock_spec(ls, Controller::Dma1) + controller_clock_spec(ls, Controller::Dma2);
    if body.len() == 0 {
        Seq::empty()
    } else {
        "    /* DMA controller clocks */\n"@ + body + "\n"@
    }
}

/// The `HAL_GPIO_Init` block of one resolved pin: open-drain with pull-ups
/// for I2C, push-pull without pulls otherwise.
pub open spec fn gpio_pin_spec(kind: Kind, instance: Seq<char>, pin: Pin, af: u8) -> Seq<char> {
    "    GPIO_InitStruct.Pin = GPIO_PIN_"@ + dec_digits(pin.number as nat) + ";\n"@ + "    GPIO_InitStruct.Mode = "@ + (if kind
        == Kind::I2c {
        "GPIO_MODE_AF_OD"@
    } else {
        "GPIO_MODE_AF_PP"@
    }) + ";\n"@ + "    GPIO_InitStruct.Pull = "@ + (if kind == Kind::I2c {
        "GPIO_PULLUP"@
    } else {
        "GPIO_NOPULL"@
    }) + ";\n"@ + "    GPIO_InitStruct.Speed = GPIO_SPEED_FREQ_VERY_HIGH;\n"@ + "    GPIO_InitStruct.Alternate = GPIO_AF"@ + dec_digits(
        af as nat,
    ) + "_"@ + instance + ";\n"@ + "    HAL_GPIO_Init(GPIO"@ + seq![port_letter(pin.port)] + ", &GPIO_InitStruct);\n"@
}

pub open spec fn gpio_config_spec(kind: Kind, instance: Seq<char>, pins: Seq<(Pin, u8, Seq<char>)>) -> Seq<char>
    decreases pins.len(),
{
    if pins.len() == 0 {
        Seq::empty()
    } else {
        gpio_config_spec(kind, instance, pins.drop_last()) + gpio_pin_spec(kind, instance, pins.last().0, pins.last().1)
    }
}

/// The kind-specific `Init` fields and the HAL init call.
pub open spec fn kind_init_spec(k: Kind, h: Seq<char>, cfg: Seq<char>) -> Seq<char> {
    match k {
        Kind::Usart => init_line_spec(h, "BaudRate"@, cfg + ".BaudRate"@) + init_line_spec(h, "WordLength"@, "UART_WORDLENGTH_8B"@)
            + init_line_spec(h, "StopBits"@, "UART_STOPBITS_1"@) + init_line_spec(h, "Parity"@, "UART_PARITY_NONE"@)
            + init_line_spec(h, "Mode"@, "UART_MODE_TX_RX"@) + init_line_spec(h, "HwFlowCtl"@, "UART_HWCONTROL_NONE"@)
            + init_line_spec(h, "OverSampling"@, "UART_OVERSAMPLING_16"@) + "    HAL_UART_Init(&"@ + h + ");\n"@,
        Kind::Spi => init_line_spec(h, "CLKPolarity"@, cfg + ".CLKPolarity"@) + init_line_spec(h, "CLKPhase"@, cfg + ".CLKPhase"@)
            + init_line_spec(h, "Mode"@, "SPI_MODE_MASTER"@) + init_line_spec(h, "Direction"@, "SPI_DIRECTION_2LINES"@)
            + init_line_spec(h, "DataSize"@, "SPI_DATASIZE_8BIT"@) + init_line_spec(h, "NSS"@, "SPI_NSS_SOFT"@)
            + init_line_spec(h, "BaudRatePrescaler"@, "SPI_BAUDRATEPRESCALER_16"@) + init_line_spec(h, "FirstBit"@, "SPI_FIRSTBIT_MSB"@)
            + init_line_spec(h, "TIMode"@, "SPI_TIMODE_DISABLE"@) + init_line_spec(h, "CRCCalculation"@, "SPI_CRCCALCULATION_DISABLE"@)
            + "    HAL_SPI_Init(&"@ + h + ");\n"@,
        Kind::I2c => init_line_spec(h, "ClockSpeed"@, cfg + ".ClockSpeed"@) + init_line_spec(h, "DutyCycle"@, "I2C_DUTYCYCLE_2"@)
            + init_line_spec(h, "OwnAddress1"@, "0"@) + init_line_spec(h, "AddressingMode"@, "I2C_ADDRESSINGMODE_7BIT"@)
            + init_line_spec(h, "DualAddressMode"@, "I2C_DUALADDRESS_DISABLE"@) + init_line_spec(h, "OwnAddress2"@, "0"@)
            + init_line_spec(h, "GeneralCallMode"@, "I2C_GENERALCALL_DISABLE"@) + init_line_spec(h, "NoStretchMode"@, "I2C_NOSTRETCH_DISABLE"@)
            + "    HAL_I2C_Init(&"@ + h + ");\n"@,
        Kind::Tim => init_line_spec(h, "Prescaler"@, cfg + ".Prescaler"@) + init_line_spec(h, "Period"@, cfg + ".Period"@)
            + init_line_spec(h, "CounterMode"@, "TIM_COUNTERMODE_UP"@) + init_line_spec(h, "ClockDivision"@, "TIM_CLOCKDIVISION_DIV1"@)
            + init_line_spec(h, "AutoReloadPreload"@, "TIM_AUTORELOAD_PRELOAD_ENABLE"@) + "    HAL_TIM_PWM_Init(&"@ + h + ");\n"@,
    }
}

/// The peripheral clock enable, instance binding, `Init` fields and HAL init call.
pub open spec fn peripheral_init_spec(p: LoweredView) -> Seq<char> {
    "    __HAL_RCC_"@ + p.instance + "_CLK_ENABLE();\n"@ + "    "@ + p.handle + ".Instance = "@ + p.instance + ";\n"@ + kind_init_spec(
        p.kind,
        p.handle,
        config_var_spec(p.instance),
    )
}

pub open spec fn dma_priority_spec(priority: i64) -> Seq<char> {
    if priority == 0 {
        "DMA_PRIORITY_LOW"@
    } else if priority == 1 {
        "DMA_PRIORITY_MEDIUM"@
    } else if priority == 2 {
        "DMA_PRIORITY_HIGH"@
    } else {
        "DMA_PRIORITY_VERY_HIGH"@
    }
}

/// `HAL_DMA_Init` and `__HAL_LINKDMA` of one resolved stream.
pub open spec fn dma_stream_spec(instance: Seq<char>, handle: Seq<char>, d: (Direction, Slot, i64)) -> Seq<char> {
    let h = dma_handle_spec(instance, d.0);
    "    "@ + h + ".Instance = "@ + controller_name_spec(d.1.controller) + "_Stream"@ + dec_digits(d.1.stream as nat) + ";\n"@
        + init_line_spec(h, "Channel"@, "DMA_CHANNEL_"@ + dec_digits(d.1.channel as nat)) + init_line_spec(h, "Direction"@, match d.0 {
        Direction::Tx => "DMA_MEMORY_TO_PERIPH"@,
        Direction::Rx => "DMA_PERIPH_TO_MEMORY"@,
    }) + init_line_spec(h, "PeriphInc"@, "DMA_PINC_DISABLE"@) + init_line_spec(h, "MemInc"@, "DMA_MINC_ENABLE"@) + init_line_spec(
        h,
        "PeriphDataAlignment"@,
        "DMA_PDATAALIGN_BYTE"@,
    ) + init_line_spec(h, "MemDataAlignment"@, "DMA_MDATAALIGN_BYTE"@) + init_line_spec(h, "Mode"@, "DMA_NORMAL"@) + init_line_spec(
        h,
        "Priority"@,
        dma_priority_spec(d.2),
    ) + "    HAL_DMA_Init(&"@ + h + ");\n"@ + "    __HAL_LINKDMA(&"@ + handle + ", "@ + (match d.0 {
        Direction::Tx => "hdmatx"@,
        Direction::Rx => "hdmarx"@,
    }) + ", "@ + h + ");\n"@
}

pub open spec fn dma_inits_spec(instance: Seq<char>, handle: Seq<char>, ds: Seq<(Direction, Slot, i64)>) -> Seq<char>
    decreases ds.len(),
{
    if ds.len() == 0 {
        Seq::empty()
    } else {
        dma_inits_spec(instance, handle, ds.drop_last()) + dma_stream_spec(instance, handle, ds.last())
    }
}

/// `HAL_NVIC_SetPriority` + `HAL_NVIC_EnableIRQ` for each vector.
pub open spec fn irq_lines_spec(vectors: Seq<Seq<char>>, priority: i64) -> Seq<char>
    decreases vectors.len(),
{
    if vectors.len() == 0 {
        Seq::empty()
    } else {
        irq_lines_spec(vectors.drop_last(), priority) + ("    HAL_NVIC_SetPriority("@ + vectors.last() + "_IRQn, "@ + int_digits(
            priority as int,
        ) + ", 0);\n"@ + "    HAL_NVIC_EnableIRQ("@ + vectors.last() + "_IRQn);\n"@)
    }
}

pub open spec fn irq_init_spec(p: LoweredView) -> Seq<char> {
    match p.irq {
        Some((vectors, priority)) => irq_lines_spec(vectors, priority),
        None => Seq::empty(),
    }
}

/// One peripheral's part of `Nucleus_Init()`.
pub open spec fn init_block_spec(p: LoweredView) -> Seq<char> {
    "    /* ---- "@ + p.instance + " ---- */\n"@ + gpio_config_spec(p.kind, p.instance, p.pins) + peripheral_init_spec(p)
        + dma_inits_spec(p.instance, p.handle, p.dma) + irq_init_spec(p) + "\n"@
}

pub open spec fn init_blocks_spec(ls: Seq<LoweredView>) -> Seq<char>
    decreases ls.len(),
{
    if ls.len() == 0 {
        Seq::empty()
    } else {
        init_blocks_spec(ls.drop_last()) + init_block_spec(ls.last())
    }
}

/// The whole of `nucleus_init.c`.
pub open spec fn init_source_spec(ls: Seq<LoweredView>) -> Seq<char> {
    GENERATED_BANNER@ + "#include \"nucleus_config.h\"\n\n"@ + handle_defs_spec(ls) + "\n"@ + config_instances_spec(ls)
        + "void Nucleus_Init(void)\n{\n"@ + "    GPIO_InitTypeDef GPIO_InitStruct = {0};\n\n"@ + gpio_clocks_spec(ls) + dma_clocks_spec(ls)
        + init_blocks_spec(ls) + "}\n"@
}


fn dma_defs(instance: &str, ds: &Vec<DmaInit>) -> (r: String)
    ensures
        r@ == dma_defs_spec(instance@, ds@.map_values(|d: DmaInit| (d.direction, d.slot, d.priority))),
{
    let ghost dv = ds@.map_values(|d: DmaInit| (d.direction, d.slot, d.priority));
    let mut r = String::new();
    let mut j: usize = 0;
    assert(dv.take(0) =~= Seq::<(Direction, Slot, i64)>::empty());
    while j < ds.len()
        invariant
            0 <= j <= ds@.len(),
            dv == ds@.map_values(|d: DmaInit| (d.direction, d.slot, d.priority)),
            r@ == dma_defs_spec(instance@, dv.take(j as int)),
        decreases ds@.len() - j,
    {
        let h = dma_handle_name(instance, ds[j].direction);
        let mut line = String::from_str("DMA_HandleTypeDef ");
        line.append(h.as_str());
        line.append(";\n");
        r.append(line.as_str());
        assert(dv.take(j + 1).drop_last() =~= dv.take(j as int));
        j += 1;
    }
    assert(dv.take(ds@.len() as int) =~= dv);
    r
}

fn handle_def(p: &Lowered) -> (r: String)
    ensures
        r@ == handle_def_spec(p@),
{
    let mut r = String::from_str(p.handle_type);
    r.append(" ");
    r.append(p.handle.as_str());
    r.append(";\n");
    r.append(dma_defs(p.instance.as_str(), &p.dma).as_str());
    r
}

/// SPI mode (0–3) → `(CLKPolarity, CLKPhase)` HAL macros.
pub fn spi_mode(mode: i64) -> (r: (&'static str, &'static str))
    ensures
        (r.0@, r.1@) == spi_mode_spec(mode),
{
    if mode == 1 {
        ("SPI_POLARITY_LOW", "SPI_PHASE_2EDGE")
    } else if mode == 2 {
        ("SPI_POLARITY_HIGH", "SPI_PHASE_1EDGE")
    } else if mode == 3 {
        ("SPI_POLARITY_HIGH", "SPI_PHASE_2EDGE")
    } else {
        ("SPI_POLARITY_LOW", "SPI_PHASE_1EDGE")
    }
}

fn settings_lines(st: Settings) -> (r: String)
    ensures
        r@ == settings_lines_spec(st),
{
    match st {
        Settings::Usart { baud } => {
            let mut r = String::from_str("    .BaudRate = ");
            r.append(i64_to_string(baud).as_str());
            r.append("u,\n");
            r
        },
        Settings::Spi { mode } => {
            let (cpol, cpha) = spi_mode(mode);
            let mut r = String::from_str("    .CLKPolarity = ");
            r.append(cpol);
            r.append(",\n");
            r.append("    .CLKPhase = ");
            r.append(cpha);
            r.append(",\n");
            r
        },
        Settings::I2c { fast } => {
            let mut r = String::from_str("    .ClockSpeed = ");
            if fast {
                r.append("400000");
            } else {
                r.append("100000");
            }
            r.append("u,\n");
            r
        },
        Settings::Tim { prescaler, period } => {
            let mut r = String::from_str("    .Prescaler = ");
            r.append(u64_to_string(prescaler as u64).as_str());
            r.append("u,\n");
            r.append("    .Period = ");
            r.append(u64_to_string(period as u64).as_str());
            r.append("u,\n");
            r
        },
    }
}

fn config_var(instance: &str) -> (r: String)
    ensures
        r@ == config_var_spec(instance@),
{
    let mut r = to_ascii_lowercase(instance);
    r.append("_config");
    r
}

fn config_instance(p: &Lowered) -> (r: String)
    ensures
        r@ == config_instance_spec(p@),
{
    let mut r = String::from_str("static const ");
    r.append(p.config_type.as_str());
    r.append(" ");
    r.append(config_var(p.instance.as_str()).as_str());
    r.append(" = {\n");
    r.append(settings_lines(p.settings).as_str());
    r.append("};\n\n");
    r
}

fn port_used(ls: &Vec<Lowered>, port: Port) -> (r: bool)
    ensures
        r == uses_port(views_of(ls@), port),
{
    let ghost v = views_of(ls@);
    let mut i: usize = 0;
    while i < ls.len()
        invariant
            0 <= i <= ls@.len(),
            v == views_of(ls@),
            forall|a: int, b: int| 0 <= a < i && 0 <= b < v[a].pins.len() ==> (#[trigger] v[a].pins[b]).0.port != port,
        decreases ls@.len() - i,
    {
        let mut j: usize = 0;
        while j < ls[i].pins.len()
            invariant
                0 <= i < ls@.len(),
                0 <= j <= ls@[i as int].pins@.len(),
                v == views_of(ls@),
                forall|a: int, b: int| 0 <= a < i && 0 <= b < v[a].pins.len() ==> (#[trigger] v[a].pins[b]).0.port != port,
                forall|b: int| 0 <= b < j ==> (#[trigger] v[i as int].pins[b]).0.port != port,
            decreases ls@[i as int].pins@.len() - j,
        {
            if ls[i].pins[j].0.port == port {
                assert(v[i as int].pins[j as int].0.port == port);
                return true;
            }
            j += 1;
        }
        i += 1;
    }
    false
}

fn port_clock(ls: &Vec<Lowered>, port: Port) -> (r: String)
    ensures
        r@ == port_clock_spec(views_of(ls@), port),
{
    if port_used(ls, port) {
        let mut r = String::from_str("    __HAL_RCC_GPIO");
        r.append(port.letter_str());
        r.append("_CLK_ENABLE();\n");
        r
    } else {
        let r = String::new();
        assert(r@ =~= Seq::<char>::empty());
        r
    }
}

fn gpio_clocks(ls: &Vec<Lowered>) -> (r: String)
    ensures
        r@ == gpio_clocks_spec(views_of(ls@)),
{
    let mut body = port_clock(ls, Port::A);
    body.append(port_clock(ls, Port::B).as_str());
    body.append(port_clock(ls, Port::C).as_str());
    body.append(port_clock(ls, Port::D).as_str());
    body.append(port_clock(ls, Port::E).as_str());
    body.append(port_clock(ls, Port::F).as_str());
    body.append(port_clock(ls, Port::G).as_str());
    body.append(port_clock(ls, Port::H).as_str());
    if body.unicode_len() == 0 {
        let r = String::new();
        assert(r@ =~= Seq::<char>::empty());
        r
    } else {
        let mut r = String::from_str("    /* GPIO port clocks */\n");
        r.append(body.as_str());
        r.append("\n");
        r
    }
}

fn controller_used(ls: &Vec<Lowered>, c: Controller) -> (r: bool)
    ensures
        r == uses_controller(views_of(ls@), c),
{
    let ghost v = views_of(ls@);
    let mut i: usize = 0;
    while i < ls.len()
        invariant
            0 <= i <= ls@.len(),
            v == views_of(ls@),
            forall|a: int, b: int| 0 <= a < i && 0 <= b < v[a].dma.len() ==> (#[trigger] v[a].dma[b]).1.controller != c,
        decreases ls@.len() - i,
    {
        let mut j: usize = 0;
        while j < ls[i].dma.len()
            invariant
                0 <= i < ls@.len(),
                0 <= j <= ls@[i as int].dma@.len(),
                v == views_of(ls@),
                forall|a: int, b: int| 0 <= a < i && 0 <= b < v[a].dma.len() ==> (#[trigger] v[a].dma[b]).1.controller != c,
                forall|b: int| 0 <= b < j ==> (#[trigger] v[i as int].dma[b]).1.controller != c,
            decreases ls@[i as int].dma@.len() - j,
        {
            if ls[i].dma[j].slot.controller == c {
                assert(v[i as int].dma[j as int].1.controller == c);
                return true;
            }
            j += 1;
        }
        i += 1;
    }
    false
}

fn controller_clock(ls: &Vec<Lowered>, c: Controller) -> (r: String)
    ensures
        r@ == controller_clock_spec(views_of(ls@), c),
{
    if controller_used(ls, c) {
        let mut r = String::from_str("    __HAL_RCC_");
        r.append(c.name());
        r.append("_CLK_ENABLE();\n");
        r
    } else {
        let r = String::new();
        assert(r@ =~= Seq::<char>::empty());
        r
    }
}

fn dma_clocks(ls: &Vec<Lowered>) -> (r: String)
    ensures
        r@ == dma_clocks_spec(views_of(ls@)),
{
    let mut body = controller_clock(ls, Controller::Dma1);
    body.append(controller_clock(ls, Controller::Dma2).as_str());
    if body.unicode_len() == 0 {
        let r = String::new();
        assert(r@ =~= Seq::<char>::empty());
        r
    } else {
        let mut r = String::from_str("    /* DMA controller clocks */\n");
        r.append(body.as_str());
        r.append("\n");
        r
    }
}


fn gpio_mode(kind: Kind) -> (r: (&'static str, &'static str))
    ensures
        r.0@ == (if kind == Kind::I2c {
            "GPIO_MODE_AF_OD"@
        } else {
            "GPIO_MODE_AF_PP"@
        }),
        r.1@ == (if kind == Kind::I2c {
            "GPIO_PULLUP"@
        } else {
            "GPIO_NOPULL"@
        }),
{
    if kind == Kind::I2c {
        ("GPIO_MODE_AF_OD", "GPIO_PULLUP")
    } else {
        ("GPIO_MODE_AF_PP", "GPIO_NOPULL")
    }
}

fn gpio_pin(kind: Kind, instance: &str, pin: Pin, af: u8) -> (r: String)
    ensures
        r@ == gpio_pin_spec(kind, instance@, pin, af),
{
    let (mode, pull) = gpio_mode(kind);
    let mut r = String::from_str("    GPIO_InitStruct.Pin = GPIO_PIN_");
    r.append(u64_to_string(pin.number as u64).as_str());
    r.append(";\n");
    r.append("    GPIO_InitStruct.Mode = ");
    r.append(mode);
    r.append(";\n");
    r.append("    GPIO_InitStruct.Pull = ");
    r.append(pull);
    r.append(";\n");
    r.append("    GPIO_InitStruct.Speed = GPIO_SPEED_FREQ_VERY_HIGH;\n");
    r.append("    GPIO_InitStruct.Alternate = GPIO_AF");
    r.append(u64_to_string(af as u64).as_str());
    r.append("_");
    r.append(instance);
    r.append(";\n");
    r.append("    HAL_GPIO_Init(GPIO");
    r.append(pin.port.letter_str());
    r.append(", &GPIO_InitStruct);\n");
    r
}

fn gpio_config(kind: Kind, instance: &str, pins: &Vec<(Pin, u8, &'static str)>) -> (r: String)
    ensures
        r@ == gpio_config_spec(kind, instance@, pins@.map_values(|x: (Pin, u8, &'static str)| (x.0, x.1, x.2@))),
{
    let ghost pv = pins@.map_values(|x: (Pin, u8, &'static str)| (x.0, x.1, x.2@));
    let mut r = String::new();
    let mut j: usize = 0;
    assert(pv.take(0) =~= Seq::<(Pin, u8, Seq<char>)>::empty());
    while j < pins.len()
        invariant
            0 <= j <= pins@.len(),
            pv == pins@.map_values(|x: (Pin, u8, &'static str)| (x.0, x.1, x.2@)),
            r@ == gpio_config_spec(kind, instance@, pv.take(j as int)),
        decreases pins@.len() - j,
    {
        r.append(gpio_pin(kind, instance, pins[j].0, pins[j].1).as_str());
        assert(pv.take(j + 1).drop_last() =~= pv.take(j as int));
        j += 1;
    }
    assert(pv.take(pins@.len() as int) =~= pv);
    r
}

fn init_line(h: &str, field: &str, val: &str) -> (r: String)
    ensures
        r@ == init_line_spec(h@, field@, val@),
{
    let mut r = String::from_str("    ");
    r.append(h);
    r.append(".Init.");
    r.append(field);
    r.append(" = ");
    r.append(val);
    r.append(";\n");
    r
}

fn cfg_field(cfg: &str, field: &str) -> (r: String)
    ensures
        r@ == cfg@ + field@,
{
    let mut r = String::from_str(cfg);
    r.append(field);
    r
}

fn kind_init(k: Kind, h: &str, cfg: &str) -> (r: String)
    ensures
        r@ == kind_init_spec(k, h@, cfg@),
{
    match k {
        Kind::Usart => {
            let mut r = init_line(h, "BaudRate", cfg_field(cfg, ".BaudRate").as_str());
            r.append(init_line(h, "WordLength", "UART_WORDLENGTH_8B").as_str());
            r.append(init_line(h, "StopBits", "UART_STOPBITS_1").as_str());
            r.append(init_line(h, "Parity", "UART_PARITY_NONE").as_str());
            r.append(init_line(h, "Mode", "UART_MODE_TX_RX").as_str());
            r.append(init_line(h, "HwFlowCtl", "UART_HWCONTROL_NONE").as_str());
            r.append(init_line(h, "OverSampling", "UART_OVERSAMPLING_16").as_str());
            r.append("    HAL_UART_Init(&");
            r.append(h);
            r.append(");\n");
            r
        },
        Kind::Spi => {
            let mut r = init_line(h, "CLKPolarity", cfg_field(cfg, ".CLKPolarity").as_str());
            r.append(init_line(h, "CLKPhase", cfg_field(cfg, ".CLKPhase").as_str()).as_str());
            r.append(init_line(h, "Mode", "SPI_MODE_MASTER").as_str());
            r.append(init_line(h, "Direction", "SPI_DIRECTION_2LINES").as_str());
            r.append(init_line(h, "DataSize", "SPI_DATASIZE_8BIT").as_str());
            r.append(init_line(h, "NSS", "SPI_NSS_SOFT").as_str());
            r.append(init_line(h, "BaudRatePrescaler", "SPI_BAUDRATEPRESCALER_16").as_str());
            r.append(init_line(h, "FirstBit", "SPI_FIRSTBIT_MSB").as_str());
            r.append(init_line(h, "TIMode", "SPI_TIMODE_DISABLE").as_str());
            r.append(init_line(h, "CRCCalculation", "SPI_CRCCALCULATION_DISABLE").as_str());
            r.append("    HAL_SPI_Init(&");
            r.append(h);
            r.append(");\n");
            r
        },
        Kind::I2c => {
            let mut r = init_line(h, "ClockSpeed", cfg_field(cfg, ".ClockSpeed").as_str());
            r.append(init_line(h, "DutyCycle", "I2C_DUTYCYCLE_2").as_str());
            r.append(init_line(h, "OwnAddress1", "0").as_str());
            r.append(init_line(h, "AddressingMode", "I2C_ADDRESSINGMODE_7BIT").as_str());
            r.append(init_line(h, "DualAddressMode", "I2C_DUALADDRESS_DISABLE").as_str());
            r.append(init_line(h, "OwnAddress2", "0").as_str());
            r.append(init_line(h, "GeneralCallMode", "I2C_GENERALCALL_DISABLE").as_str());
            r.append(init_line(h, "NoStretchMode", "I2C_NOSTRETCH_DISABLE").as_str());
            r.append("    HAL_I2C_Init(&");
            r.append(h);
            r.append(");\n");
            r
        },
        Kind::Tim => {
            let mut r = init_line(h, "Prescaler", cfg_field(cfg, ".Prescaler").as_str());
            r.append(init_line(h, "Period", cfg_field(cfg, ".Period").as_str()).as_str());
            r.append(init_line(h, "CounterMode", "TIM_COUNTERMODE_UP").as_str());
            r.append(init_line(h, "ClockDivision", "TIM_CLOCKDIVISION_DIV1").as_str());
            r.append(init_line(h, "AutoReloadPreload", "TIM_AUTORELOAD_PRELOAD_ENABLE").as_str());
            r.append("    HAL_TIM_PWM_Init(&");
            r.append(h);
            r.append(");\n");
            r
        },
    }
}

fn peripheral_init(p: &Lowered) -> (r: String)
    ensures
        r@ == peripheral_init_spec(p@),
{
    let mut r = String::from_str("    __HAL_RCC_");
    r.append(p.instance.as_str());
    r.append("_CLK_ENABLE();\n");
    r.append("    ");
    r.append(p.handle.as_str());
    r.append(".Instance = ");
    r.append(p.instance.as_str());
    r.append(";\n");
    let cfg = config_var(p.instance.as_str());
    r.append(kind_init(p.kind, p.handle.as_str(), cfg.as_str()).as_str());
    r
}

/// DMA priority (0–3) → `DMA_PRIORITY_*`; anything from 3 up, and below 0,
/// is very high.
pub fn dma_priority_macro(priority: i64) -> (r: &'static str)
    ensures
        r@ == dma_priority_spec(priority),
{
    if priority == 0 {
        "DMA_PRIORITY_LOW"
    } else if priority == 1 {
        "DMA_PRIORITY_MEDIUM"
    } else if priority == 2 {
        "DMA_PRIORITY_HIGH"
    } else {
        "DMA_PRIORITY_VERY_HIGH"
    }
}

fn direction_macros(d: Direction) -> (r: (&'static str, &'static str))
    ensures
        r.0@ == match d {
            Direction::Tx => "DMA_MEMORY_TO_PERIPH"@,
            Direction::Rx => "DMA_PERIPH_TO_MEMORY"@,
        },
        r.1@ == match d {
            Direction::Tx => "hdmatx"@,
            Direction::Rx => "hdmarx"@,
        },
{
    match d {
        Direction::Tx => ("DMA_MEMORY_TO_PERIPH", "hdmatx"),
        Direction::Rx => ("DMA_PERIPH_TO_MEMORY", "hdmarx"),
    }
}

fn dma_stream(instance: &str, handle: &str, d: DmaInit) -> (r: String)
    ensures
        r@ == dma_stream_spec(instance@, handle@, (d.direction, d.slot, d.priority)),
{
    let h = dma_handle_name(instance, d.direction);
    let hs = h.as_str();
    let (direction_macro, field) = direction_macros(d.direction);
    let mut channel = String::from_str("DMA_CHANNEL_");
    channel.append(u64_to_string(d.slot.channel as u64).as_str());
    let mut r = String::from_str("    ");
    r.append(hs);
    r.append(".Instance = ");
    r.append(d.slot.controller.name());
    r.append("_Stream");
    r.append(u64_to_string(d.slot.stream as u64).as_str());
    r.append(";\n");
    r.append(init_line(hs, "Channel", channel.as_str()).as_str());
    r.append(init_line(hs, "Direction", direction_macro).as_str());
    r.append(init_line(hs, "PeriphInc", "DMA_PINC_DISABLE").as_str());
    r.append(init_line(hs, "MemInc", "DMA_MINC_ENABLE").as_str());
    r.append(init_line(hs, "PeriphDataAlignment", "DMA_PDATAALIGN_BYTE").as_str());
    r.append(init_line(hs, "MemDataAlignment", "DMA_MDATAALIGN_BYTE").as_str());
    r.append(init_line(hs, "Mode", "DMA_NORMAL").as_str());
    r.append(init_line(hs, "Priority", dma_priority_macro(d.priority)).as_str());
    r.append("    HAL_DMA_Init(&");
    r.append(hs);
    r.append(");\n");
    r.append("    __HAL_LINKDMA(&");
    r.append(handle);
    r.append(", ");
    r.append(field);
    r.append(", ");
    r.append(hs);
    r.append(");\n");
    r
}

fn dma_inits(instance: &str, handle: &str, ds: &Vec<DmaInit>) -> (r: String)
    ensures
        r@ == dma_inits_spec(instance@, handle@, ds@.map_values(|d: DmaInit| (d.direction, d.slot, d.priority))),
{
    let ghost dv = ds@.map_values(|d: DmaInit| (d.direction, d.slot, d.priority));
    let mut r = String::new();
    let mut j: usize = 0;
    assert(dv.take(0) =~= Seq::<(Direction, Slot, i64)>::empty());
    while j < ds.len()
        invariant
            0 <= j <= ds@.len(),
            dv == ds@.map_values(|d: DmaInit| (d.direction, d.slot, d.priority)),
            r@ == dma_inits_spec(instance@, handle@, dv.take(j as int)),
        decreases ds@.len() - j,
    {
        r.append(dma_stream(instance, handle, ds[j]).as_str());
        assert(dv.take(j + 1).drop_last() =~= dv.take(j as int));
        j += 1;
    }
    assert(dv.take(ds@.len() as int) =~= dv);
    r
}

fn irq_lines(vectors: &'static [&'static str], priority: i64) -> (r: String)
    ensures
        r@ == irq_lines_spec(vectors@.map_values(|v: &'static str| v@), priority),
{
    let ghost vv = vectors@.map_values(|v: &'static str| v@);
    let prio = i64_to_string(priority);
    let mut r = String::new();
    let mut j: usize = 0;
    assert(vv.take(0) =~= Seq::<Seq<char>>::empty());
    while j < vectors.len()
        invariant
            0 <= j <= vectors@.len(),
            vv == vectors@.map_values(|v: &'static str| v@),
            prio@ == int_digits(priority as int),
            r@ == irq_lines_spec(vv.take(j as int), priority),
        decreases vectors@.len() - j,
    {
        let mut line = String::from_str("    HAL_NVIC_SetPriority(");
        line.append(vectors[j]);
        line.append("_IRQn, ");
        line.append(prio.as_str());
        line.append(", 0);\n");
        line.append("    HAL_NVIC_EnableIRQ(");
        line.append(vectors[j]);
        line.append("_IRQn);\n");
        r.append(line.as_str());
        assert(vv.take(j + 1).drop_last() =~= vv.take(j as int));
        j += 1;
    }
    assert(vv.take(vectors@.len() as int) =~= vv);
    r
}

fn irq_init(p: &Lowered) -> (r: String)
    ensures
        r@ == irq_init_spec(p@),
{
    match p.irq {
        Some(irq) => irq_lines(irq.vectors, irq.priority),
        None => {
            let r = String::new();
            assert(r@ =~= Seq::<char>::empty());
            r
        },
    }
}

fn init_block(p: &Lowered) -> (r: String)
    ensures
        r@ == init_block_spec(p@),
{
    let mut r = String::from_str("    /* ---- ");
    r.append(p.instance.as_str());
    r.append(" ---- */\n");
    r.append(gpio_config(p.kind, p.instance.as_str(), &p.pins).as_str());
    r.append(peripheral_init(p).as_str());
    r.append(dma_inits(p.instance.as_str(), p.handle.as_str(), &p.dma).as_str());
    r.append(irq_init(p).as_str());
    r.append("\n");
    r
}

/// Render `nucleus_init.c`: the handle definitions, the resolved config
/// struct instances and one `Nucleus_Init()` that enables the GPIO and DMA
/// clocks, muxes each pin, and calls the HAL init functions.
#[verifier::rlimit(30)]
pub fn init_source(lowered: &Vec<Lowered>) -> (s: String)
    ensures
        s@ == init_source_spec(views_of(lowered@)),
{
    let ghost v = views_of(lowered@);
    let mut defs = String::new();
    let mut instances = String::new();
    let mut blocks = String::new();
    let mut i: usize = 0;
    assert(v.take(0) =~= Seq::<LoweredView>::empty());
    while i < lowered.len()
        invariant
            0 <= i <= lowered@.len(),
            v == views_of(lowered@),
            defs@ == handle_defs_spec(v.take(i as int)),
            instances@ == config_instances_spec(v.take(i as int)),
            blocks@ == init_blocks_spec(v.take(i as int)),
        decreases lowered@.len() - i,
    {
        defs.append(handle_def(&lowered[i]).as_str());
        instances.append(config_instance(&lowered[i]).as_str());
        blocks.append(init_block(&lowered[i]).as_str());
        assert(v.take(i + 1).drop_last() =~= v.take(i as int));
        i += 1;
    }
    assert(v.take(lowered@.len() as int) =~= v);
    let mut s = String::from_str(GENERATED_BANNER);
    s.append("#include \"nucleus_config.h\"\n\n");
    s.append(defs.as_str());
    s.append("\n");
    s.append(instances.as_str());
    s.append("void Nucleus_Init(void)\n{\n");
    s.append("    GPIO_InitTypeDef GPIO_InitStruct = {0};\n\n");
    s.append(gpio_clocks(lowered).as_str());
    s.append(dma_clocks(lowered).as_str());
    s.append(blocks.as_str());
    s.append("}\n");
    s
}

/// The lowered peripherals of a config's tables, in table order.
pub open spec fn lowered_all(
    entries: Seq<(String, Peripheral)>,
    db: Seq<AfMapping>,
    irq_rows: Seq<PeripheralIrq>,
    grants: Seq<(Seq<char>, Direction, Slot)>,
    clock_hz: Option<u64>,
) -> Seq<LoweredView>
    decreases entries.len(),
{
    if entries.len() == 0 {
        Seq::empty()
    } else {
        let prev = lowered_all(entries.drop_last(), db, irq_rows, grants, clock_hz);
        match lower_spec(entries.last().0@, entries.last().1.0@, db, irq_rows, grants, clock_hz) {
            Some(l) => prev.push(l),
            None => prev,
        }
    }
}

/// Whether every timer table's divisor fits in 64 bits.
pub open spec fn timers_fit(entries: Seq<(String, Peripheral)>) -> bool {
    forall|i: int|
        0 <= i < entries.len() && kind_of_spec(strip_trailing_digits(#[trigger] entries[i].0@)) == Some(Kind::Tim) ==> tim_fits(
            entries[i].1.0@,
        )
}

/// Whether a timer table's divisor `frequency × 2^bits` fits in 64 bits.
pub fn tim_divisor_fits(table: &Peripheral) -> (r: bool)
    ensures
        r == tim_fits(table.0@),
{
    let b = match table.integer("duty_resolution_bits") {
        Some(v) => v,
        None => 16,
    };
    let bits: u32 = if b < 1 {
        1
    } else if b > 31 {
        31
    } else {
        b as u32
    };
    let f = match table.integer("frequency_hz") {
        Some(v) => v,
        None => 1000,
    };
    let freq: u64 = if f < 1 {
        1
    } else {
        f as u64
    };
    assert(freq as nat == pwm_freq(table.0@));
    assert(bits as nat == duty_bits(table.0@));
    freq.checked_mul(pow2_u64(bits)).is_some()
}

/// Whether every timer table of `config` has a divisor that fits in 64
/// bits, which [`generate`] needs.
pub fn timers_fit_check(config: &Config) -> (r: bool)
    ensures
        r == timers_fit(config.peripherals@),
{
    let mut i: usize = 0;
    while i < config.peripherals.len()
        invariant
            0 <= i <= config.peripherals@.len(),
            forall|j: int|
                0 <= j < i && kind_of_spec(strip_trailing_digits(#[trigger] config.peripherals@[j].0@)) == Some(Kind::Tim)
                    ==> tim_fits(config.peripherals@[j].1.0@),
        decreases config.peripherals@.len() - i,
    {
        if kind_of(config.peripherals[i].0.as_str()) == Some(Kind::Tim) && !tim_divisor_fits(&config.peripherals[i].1) {
            return false;
        }
        i += 1;
    }
    true
}

/// The peripherals code generation emits for `config` against `db`.
pub open spec fn generate_lowered(config: Config, db: Seq<AfMapping>) -> Seq<LoweredView> {
    lowered_all(
        config.peripherals@,
        db,
        family_irq_rows(config.device.family@),
        grants_spec(config, family_dma_rows(config.device.family@)),
        config.device.clock_hz,
    )
}

/// Generate `nucleus_config.h` and `nucleus_init.c` for `config`. Tables of
/// unmodelled kinds are skipped, as are pins that do not resolve; DMA
/// streams are the ones the greedy arbitration grants.
pub fn generate(config: &Config, db: &Database) -> (g: Generated)
    requires
        timers_fit(config.peripherals@),
    ensures
        g.config_h@ == config_header_spec(generate_lowered(*config, db@)),
        g.init_c@ == init_source_spec(generate_lowered(*config, db@)),
{
    let irq_map = irq_map_for(config.device.family.as_str());
    let dma_map = dma_map_for(config.device.family.as_str());
    let grants = resolve(config, &dma_map);
    let ghost rows = family_irq_rows(config.device.family@);
    let ghost gm = grants_spec(*config, family_dma_rows(config.device.family@));
    let mut lowered: Vec<Lowered> = Vec::new();
    let mut i: usize = 0;
    assert(config.peripherals@.take(0) =~= Seq::<(String, Peripheral)>::empty());
    assert(views_of(lowered@) =~= Seq::<LoweredView>::empty());
    while i < config.peripherals.len()
        invariant
            0 <= i <= config.peripherals@.len(),
            timers_fit(config.peripherals@),
            irq_map@ == rows,
            grants_model(grants@) == gm,
            views_of(lowered@) == lowered_all(config.peripherals@.take(i as int), db@, rows, gm, config.device.clock_hz),
        decreases config.peripherals@.len() - i,
    {
        let entry = &config.peripherals[i];
        let ghost before = views_of(lowered@);
        assert(config.peripherals@.take(i + 1).drop_last() =~= config.peripherals@.take(i as int));
        assert(config.peripherals@.take(i + 1).last() == config.peripherals@[i as int]);
        match lower(entry.0.as_str(), &entry.1, db, &irq_map, &grants, config.device.clock_hz) {
            Some(l) => {
                lowered.push(l);
                assert(views_of(lowered@) =~= before.push(l@));
            },
            None => {},
        }
        i += 1;
    }
    assert(config.peripherals@.take(config.peripherals@.len() as int) =~= config.peripherals@);
    Generated { config_h: config_header(&lowered), init_c: init_source(&lowered) }
}


/// Every pin's GPIO init block sets up that pin and hands it to its own
/// port: it opens with `GPIO_InitStruct.Pin = GPIO_PIN_<number>;` for the
/// pin's number; sets an I2C pin open-drain with a pull-up and any other
/// pin push-pull with no pull; selects the alternate function
/// `GPIO_AF<af>_<instance>`; and ends with `HAL_GPIO_Init(GPIO<port>, ...)`
/// for the pin's port letter (`A` for port A, `B` for port B, ...).
pub proof fn lemma_gpio_pin_targets_its_port(kind: Kind, instance: Seq<char>, pin: Pin, af: u8)
    ensures
        ({
            let out = gpio_pin_spec(kind, instance, pin, af);
            let head = "    GPIO_InitStruct.Pin = GPIO_PIN_"@ + dec_digits(pin.number as nat) + ";\n"@;
            let mode = if kind == Kind::I2c {
                "    GPIO_InitStruct.Mode = GPIO_MODE_AF_OD;\n    GPIO_InitStruct.Pull = GPIO_PULLUP;\n"@
            } else {
                "    GPIO_InitStruct.Mode = GPIO_MODE_AF_PP;\n    GPIO_InitStruct.Pull = GPIO_NOPULL;\n"@
            };
            let speed = "    GPIO_InitStruct.Speed = GPIO_SPEED_FREQ_VERY_HIGH;\n"@;
            let alt = "    GPIO_InitStruct.Alternate = GPIO_AF"@ + dec_digits(af as nat) + "_"@ + instance + ";\n"@;
            let port = seq![port_letter(pin.port)];
            let init = "    HAL_GPIO_Init("@ + "GPIO"@ + port + ", &GPIO_InitStruct);\n"@;
            &&& out == head + mode + speed + alt + init
            &&& head.len() <= out.len() && out.take(head.len() as int) == head
            &&& init.len() <= out.len() && out.skip(out.len() - init.len()) == init
        }),
        port_letter(pin.port) as u32 == 65 + crate::db::port_index(pin.port),
{
    let out = gpio_pin_spec(kind, instance, pin, af);
    let head = "    GPIO_InitStruct.Pin = GPIO_PIN_"@ + dec_digits(pin.number as nat) + ";\n"@;
    let mode = if kind == Kind::I2c {
        "    GPIO_InitStruct.Mode = GPIO_MODE_AF_OD;\n    GPIO_InitStruct.Pull = GPIO_PULLUP;\n"@
    } else {
        "    GPIO_InitStruct.Mode = GPIO_MODE_AF_PP;\n    GPIO_InitStruct.Pull = GPIO_NOPULL;\n"@
    };
    let speed = "    GPIO_InitStruct.Speed = GPIO_SPEED_FREQ_VERY_HIGH;\n"@;
    let alt = "    GPIO_InitStruct.Alternate = GPIO_AF"@ + dec_digits(af as nat) + "_"@ + instance + ";\n"@;
    let port = seq![port_letter(pin.port)];
    let init = "    HAL_GPIO_Init("@ + "GPIO"@ + port + ", &GPIO_InitStruct);\n"@;
    reveal_strlit("    HAL_GPIO_Init(");
    reveal_strlit("GPIO");
    reveal_strlit("    HAL_GPIO_Init(GPIO");
    reveal_strlit("    GPIO_InitStruct.Mode = ");
    reveal_strlit("GPIO_MODE_AF_OD");
    reveal_strlit("GPIO_MODE_AF_PP");
    reveal_strlit(";\n");
    reveal_strlit("    GPIO_InitStruct.Pull = ");
    reveal_strlit("GPIO_PULLUP");
    reveal_strlit("GPIO_NOPULL");
    reveal_strlit("    GPIO_InitStruct.Mode = GPIO_MODE_AF_OD;\n    GPIO_InitStruct.Pull = GPIO_PULLUP;\n");
    reveal_strlit("    GPIO_InitStruct.Mode = GPIO_MODE_AF_PP;\n    GPIO_InitStruct.Pull = GPIO_NOPULL;\n");
    assert("    HAL_GPIO_Init("@ + "GPIO"@ =~= "    HAL_GPIO_Init(GPIO"@);
    if kind == Kind::I2c {
        assert("    GPIO_InitStruct.Mode = "@ + "GPIO_MODE_AF_OD"@ + ";\n"@ + "    GPIO_InitStruct.Pull = "@ + "GPIO_PULLUP"@ + ";\n"@
            =~= mode);
    } else {
        assert("    GPIO_InitStruct.Mode = "@ + "GPIO_MODE_AF_PP"@ + ";\n"@ + "    GPIO_InitStruct.Pull = "@ + "GPIO_NOPULL"@ + ";\n"@
            =~= mode);
    }
    assert(out =~= head + mode + speed + alt + init);
    assert(out.take(head.len() as int) =~= head);
    assert(out.skip(out.len() - init.len()) =~= init);
}


} // verus!
