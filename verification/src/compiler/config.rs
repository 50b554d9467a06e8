//! The `stm32.toml` project configuration as plain values.
//!
//! Peripheral tables carry a mix of pin assignments (`tx = "PA2"`) and tuning
//! parameters (`baud = 115200`); each `[peripherals.<name>]` table is kept as
//! a key → value list and interpreted by the solver against the
//! [`crate::compiler::model`] role tables.

use vstd::prelude::*;
use crate::text::str_eq;

verus! {

/// One value of a peripheral table, reduced to what the checks read.
#[derive(Debug, Clone, PartialEq, Eq)]
pub enum ConfigValue {
    /// A string, e.g. a pin assignment.
    String(String),
    /// An integer, e.g. `baud = 115200`.
    Integer(i64),
    /// A boolean, e.g. `dma = true`.
    Boolean(bool),
    /// An array; holds the array's string items, in order (other items are
    /// never read).
    Array(Vec<String>),
    /// Any other TOML value (float, date-time, table).
    Other,
}

/// One `[peripherals.<instance>]` table: its keys and values in key order.
#[derive(Debug, Clone, PartialEq, Eq)]
pub struct Peripheral(pub Vec<(String, ConfigValue)>);

/// The value of the first entry of `entries` whose key is `key`.
pub open spec fn lookup_value(entries: Seq<(String, ConfigValue)>, key: Seq<char>) -> Option<ConfigValue>
    decreases entries.len(),
{
    if entries.len() == 0 {
        None
    } else if entries[0].0@ == key {
        Some(entries[0].1)
    } else {
        lookup_value(entries.drop_first(), key)
    }
}

/// The string held under `key`, if there is one and it is a string.
pub open spec fn pin_str_spec(entries: Seq<(String, ConfigValue)>, key: Seq<char>) -> Option<Seq<char>> {
    match lookup_value(entries, key) {
        Some(ConfigValue::String(s)) => Some(s@),
        _ => None,
    }
}

/// The integer held under `key`, if there is one and it is an integer.
pub open spec fn integer_spec(entries: Seq<(String, ConfigValue)>, key: Seq<char>) -> Option<i64> {
    match lookup_value(entries, key) {
        Some(ConfigValue::Integer(i)) => Some(i),
        _ => None,
    }
}

impl Peripheral {
    /// An empty table.
    pub fn new() -> (p: Peripheral)
        ensures
            p.0@.len() == 0,
    {
        Peripheral(Vec::new())
    }

    /// The value under `key`, if present.
    pub fn get(&self, key: &str) -> (r: Option<&ConfigValue>)
        ensures
            match r {
                Some(v) => lookup_value(self.0@, key@) == Some(*v),
                None => lookup_value(self.0@, key@) is None,
            },
    {
        let mut i: usize = 0;
        assert(self.0@.skip(0) =~= self.0@);
        while i < self.0.len()
            invariant
                0 <= i <= self.0@.len(),
                lookup_value(self.0@, key@) == lookup_value(self.0@.skip(i as int), key@),
            decreases self.0@.len() - i,
        {
            assert(self.0@.skip(i as int)[0] == self.0@[i as int]);
            if str_eq(self.0[i].0.as_str(), key) {
                return Some(&self.0[i].1);
            }
            assert(self.0@.skip(i as int).drop_first() =~= self.0@.skip(i + 1));
            i += 1;
        }
        None
    }

    /// The string value of `key`, if present and a string (i.e. a pin role).
    pub fn pin_str(&self, key: &str) -> (r: Option<&str>)
        ensures
            match r {
                Some(s) => pin_str_spec(self.0@, key@) == Some(s@),
                None => pin_str_spec(self.0@, key@) is None,
            },
    {
        match self.get(key) {
            Some(ConfigValue::String(s)) => Some(s.as_str()),
            _ => None,
        }
    }

    /// The integer value of `key`, if present and an integer.
    pub fn integer(&self, key: &str) -> (r: Option<i64>)
        ensures
            r == integer_spec(self.0@, key@),
    {
        match self.get(key) {
            Some(ConfigValue::Integer(i)) => Some(*i),
            _ => None,
        }
    }
}

/// The `[device]` section.
#[derive(Debug, Clone, PartialEq, Eq)]
pub struct Device {
    pub family: String,
    pub board: Option<String>,
    pub clock_hz: Option<u64>,
}

/// The `[build]` section.
#[derive(Debug, Clone, PartialEq, Eq)]
pub struct Build {
    pub toolchain: Option<String>,
    pub optimization: Option<String>,
}

/// The `[clocks]` section. The bus switches default to enabled; every
/// clock-tree field is optional and, when absent, the clock resolver uses the
/// family's known-good NUCLEO configuration.
#[derive(Debug, Clone, PartialEq, Eq)]
pub struct Clocks {
    pub ahb1: bool,
    pub apb1: bool,
    pub apb2: bool,
    /// SYSCLK source: `"hsi"`, `"hse"`, or `"pll"`.
    pub source: Option<String>,
    /// Oscillator feeding the PLL: `"hsi"` or `"hse"`.
    pub pll_source: Option<String>,
    pub pll_m: Option<u32>,
    pub pll_n: Option<u32>,
    pub pll_p: Option<u32>,
    pub pll_q: Option<u32>,
    pub ahb_prescaler: Option<u32>,
    pub apb1_prescaler: Option<u32>,
    pub apb2_prescaler: Option<u32>,
}

/// The `[trace]` section.
#[derive(Debug, Clone, PartialEq, Eq)]
pub struct Trace {
    pub enabled: bool,
    pub swo_freq: Option<u64>,
    pub variables: Vec<TraceVariable>,
}

/// One `[[trace.variables]]` entry.
#[derive(Debug, Clone, PartialEq, Eq)]
pub struct TraceVariable {
    pub name: String,
    pub port: u8,
    /// The variable type, e.g. `"u32"` (written `type` in the file).
    pub ty: String,
}

/// One `[[exti]]` entry.
#[derive(Debug, Clone, PartialEq, Eq)]
pub struct ExtiPin {
    pub pin: String,
    pub priority: Option<u8>,
}

/// One `[[test]]` entry — a declarative HIL assertion or a scripted test.
#[derive(Debug, Clone, PartialEq, Eq)]
pub struct TestCase {
    pub name: String,
    pub assertion: String,
    /// Defaults to 1000 ms.
    pub timeout_ms: u64,
    /// `"qemu"`, `"hardware"` or `"both"`; `None` means both.
    pub backend: Option<String>,
    /// `"declarative"` (the default) or `"scripted"` (written `type`).
    pub kind: Option<String>,
    /// The scripted test's cargo-test name.
    pub script: Option<String>,
}

/// A parsed `stm32.toml`.
#[derive(Debug, Clone, PartialEq, Eq)]
pub struct Config {
    pub device: Device,
    pub build: Build,
    /// `[peripherals.<instance>]` tables in lexical instance-name order.
    pub peripherals: Vec<(String, Peripheral)>,
    pub clocks: Clocks,
    pub trace: Trace,
    /// `[[exti]]` entries in document order.
    pub exti: Vec<ExtiPin>,
    /// `[[test]]` entries in document order.
    pub test: Vec<TestCase>,
}

impl Default for Device {
    fn default() -> (d: Device)
        ensures
            d.family@.len() == 0,
            d.board is None,
            d.clock_hz is None,
    {
        Device { family: String::new(), board: None, clock_hz: None }
    }
}

impl Default for Build {
    fn default() -> (b: Build)
        ensures
            b.toolchain is None,
            b.optimization is None,
    {
        Build { toolchain: None, optimization: None }
    }
}

impl Default for Clocks {
    fn default() -> (c: Clocks)
        ensures
            c.ahb1 && c.apb1 && c.apb2,
            c.source is None && c.pll_source is None,
            c.pll_m is None && c.pll_n is None && c.pll_p is None && c.pll_q is None,
            c.ahb_prescaler is None && c.apb1_prescaler is None && c.apb2_prescaler is None,
    {
        Clocks {
            ahb1: true,
            apb1: true,
            apb2: true,
            source: None,
            pll_source: None,
            pll_m: None,
            pll_n: None,
            pll_p: None,
            pll_q: None,
            ahb_prescaler: None,
            apb1_prescaler: None,
            apb2_prescaler: None,
        }
    }
}

impl Default for Trace {
    fn default() -> (t: Trace)
        ensures
            !t.enabled,
            t.swo_freq is None,
            t.variables@.len() == 0,
    {
        Trace { enabled: false, swo_freq: None, variables: Vec::new() }
    }
}

impl Default for Config {
    fn default() -> (c: Config)
        ensures
            c.device.family@.len() == 0,
            c.device.board is None,
            c.device.clock_hz is None,
            c.build.toolchain is None && c.build.optimization is None,
            c.peripherals@.len() == 0,
            c.clocks.ahb1 && c.clocks.apb1 && c.clocks.apb2,
            c.clocks.source is None && c.clocks.pll_source is None,
            c.clocks.pll_m is None && c.clocks.pll_n is None && c.clocks.pll_p is None && c.clocks.pll_q is None,
            c.clocks.ahb_prescaler is None && c.clocks.apb1_prescaler is None && c.clocks.apb2_prescaler is None,
            !c.trace.enabled && c.trace.swo_freq is None && c.trace.variables@.len() == 0,
            c.exti@.len() == 0,
            c.test@.len() == 0,
    {
        Config {
            device: Device::default(),
            build: Build::default(),
            peripherals: Vec::new(),
            clocks: Clocks::default(),
            trace: Trace::default(),
            exti: Vec::new(),
            test: Vec::new(),
        }
    }
}

} // verus!
