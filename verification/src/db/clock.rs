//! The clock-tree data model of each supported family: oscillators, the main
//! PLL's divider ranges and VCO limits, the SYSCLK sources, the AHB/APB
//! prescaler sets, the peripheral → bus assignment and the silicon's bus
//! frequency limits (RM0390 for the F446, RM0383 for the F411).

use vstd::prelude::*;
use crate::text::str_eq;

verus! {

/// A closed inclusive frequency range in hertz.
#[derive(Debug, Clone, Copy, PartialEq, Eq, Structural)]
pub struct FreqRange {
    pub min_hz: u32,
    pub max_hz: u32,
}

impl FreqRange {
    pub fn new(min_hz: u32, max_hz: u32) -> (r: FreqRange)
        ensures
            r == (FreqRange { min_hz, max_hz }),
    {
        FreqRange { min_hz, max_hz }
    }

    /// Whether `hz` lies within `[min_hz, max_hz]`.
    pub fn contains(self, hz: u32) -> (r: bool)
        ensures
            r == (self.min_hz <= hz && hz <= self.max_hz),
    {
        hz >= self.min_hz && hz <= self.max_hz
    }
}

/// A closed inclusive integer divider/multiplier range.
#[derive(Debug, Clone, Copy, PartialEq, Eq, Structural)]
pub struct DividerRange {
    pub min: u32,
    pub max: u32,
}

impl DividerRange {
    pub fn new(min: u32, max: u32) -> (r: DividerRange)
        ensures
            r == (DividerRange { min, max }),
    {
        DividerRange { min, max }
    }

    /// Whether `v` lies within `[min, max]`.
    pub fn contains(self, v: u32) -> (r: bool)
        ensures
            r == (self.min <= v && v <= self.max),
    {
        v >= self.min && v <= self.max
    }
}

/// A clock oscillator source.
#[derive(Debug, Clone, Copy, PartialEq, Eq, Structural)]
pub enum Oscillator {
    /// High-speed internal RC.
    Hsi,
    /// High-speed external (crystal / ST-LINK MCO on the NUCLEO boards).
    Hse,
    /// Low-speed internal RC.
    Lsi,
    /// Low-speed external (32.768 kHz crystal).
    Lse,
}

/// One oscillator's nominal frequency and the accepted input range.
#[derive(Debug, Clone, Copy, PartialEq, Eq, Structural)]
pub struct OscillatorSpec {
    pub source: Oscillator,
    pub nominal_hz: u32,
    pub range: FreqRange,
}

/// The main PLL's divider ranges and VCO constraints:
/// `VCO_in = source / M`, `VCO_out = VCO_in * N`, `PLLCLK = VCO_out / P`.
#[derive(Debug, Clone, Copy, PartialEq, Eq)]
pub struct PllSpec {
    /// `M` input divider range.
    pub m: DividerRange,
    /// `N` VCO multiplier range.
    pub n: DividerRange,
    /// `P` system-clock output divider — a fixed small set, not a range.
    pub p: &'static [u32],
    /// `Q` 48 MHz-domain output divider range.
    pub q: DividerRange,
    /// Accepted PLL input frequency (`VCO_in`, after the `M` divider).
    pub vco_in: FreqRange,
    /// Accepted VCO output frequency (`VCO_out`).
    pub vco_out: FreqRange,
    /// Selectable PLL clock sources.
    pub sources: &'static [Oscillator],
}

/// A device bus clock domain.
#[derive(Debug, Clone, Copy, PartialEq, Eq, Structural)]
pub enum Bus {
    Ahb1,
    Apb1,
    Apb2,
}

impl Bus {
    pub fn name(self) -> (s: &'static str)
        ensures
            s@ == match self {
                Bus::Ahb1 => "AHB1"@,
                Bus::Apb1 => "APB1"@,
                Bus::Apb2 => "APB2"@,
            },
    {
        match self {
            Bus::Ahb1 => "AHB1",
            Bus::Apb1 => "APB1",
            Bus::Apb2 => "APB2",
        }
    }
}

/// A selectable SYSCLK source.
#[derive(Debug, Clone, Copy, PartialEq, Eq, Structural)]
pub enum SysclkSource {
    Hsi,
    Hse,
    Pll,
}

/// The per-family maximum frequencies (in hertz) the silicon permits.
#[derive(Debug, Clone, Copy, PartialEq, Eq, Structural)]
pub struct SiliconLimits {
    pub max_sysclk_hz: u32,
    pub max_ahb_hz: u32,
    pub max_apb1_hz: u32,
    pub max_apb2_hz: u32,
}

/// Which bus clock domain feeds a peripheral instance.
#[derive(Debug, Clone, Copy, PartialEq, Eq)]
pub struct PeripheralClock {
    /// Database peripheral name, e.g. `"USART2"`.
    pub peripheral: &'static str,
    pub bus: Bus,
}

/// The complete clock-tree model for one device family.
#[derive(Debug, Clone, Copy)]
pub struct ClockTree {
    oscillators: &'static [OscillatorSpec],
    pll: PllSpec,
    sysclk_sources: &'static [SysclkSource],
    ahb_prescalers: &'static [u32],
    apb1_prescalers: &'static [u32],
    apb2_prescalers: &'static [u32],
    limits: SiliconLimits,
    peripheral_clocks: &'static [PeripheralClock],
}

/// The model a NUCLEO board's clock tree shares across both families.
pub open spec fn nucleo_tree_common(t: ClockTree) -> bool {
    &&& t.oscillators_model() == nucleo_oscillators()
    &&& t.pll_model().m == (DividerRange { min: 2, max: 63 })
    &&& t.pll_model().n == (DividerRange { min: 50, max: 432 })
    &&& t.pll_model().p@ == seq![2u32, 4, 6, 8]
    &&& t.pll_model().q == (DividerRange { min: 2, max: 15 })
    &&& t.pll_model().vco_in == (FreqRange { min_hz: 1_000_000, max_hz: 2_000_000 })
    &&& t.pll_model().vco_out == (FreqRange { min_hz: 100_000_000, max_hz: 432_000_000 })
    &&& t.pll_model().sources@ == seq![Oscillator::Hsi, Oscillator::Hse]
    &&& t.sources_model() == seq![SysclkSource::Hsi, SysclkSource::Hse, SysclkSource::Pll]
    &&& t.prescalers_model(Bus::Ahb1) == seq![1u32, 2, 4, 8, 16, 64, 128, 256, 512]
    &&& t.prescalers_model(Bus::Apb1) == seq![1u32, 2, 4, 8, 16]
    &&& t.prescalers_model(Bus::Apb2) == seq![1u32, 2, 4, 8, 16]
}

/// `t` models the STM32F446RE clock tree.
pub open spec fn is_f446re_tree(t: ClockTree) -> bool {
    &&& nucleo_tree_common(t)
    &&& t.limits_model() == (SiliconLimits {
        max_sysclk_hz: 180_000_000,
        max_ahb_hz: 180_000_000,
        max_apb1_hz: 45_000_000,
        max_apb2_hz: 90_000_000,
    })
    &&& t.clocks_model() == f446re_peripheral_clocks()
}

/// `t` models the STM32F411RE clock tree.
pub open spec fn is_f411re_tree(t: ClockTree) -> bool {
    &&& nucleo_tree_common(t)
    &&& t.limits_model() == (SiliconLimits {
        max_sysclk_hz: 100_000_000,
        max_ahb_hz: 100_000_000,
        max_apb1_hz: 50_000_000,
        max_apb2_hz: 100_000_000,
    })
    &&& t.clocks_model() == f411re_peripheral_clocks()
}

/// The timer-clock multiplier rule: APB timers run at twice the APB clock
/// unless the APB prescaler is 1; the AHB bus has no doubling.
pub open spec fn timer_multiplier_spec(bus: Bus, apb_prescaler: u32) -> u32 {
    if (bus == Bus::Apb1 || bus == Bus::Apb2) && apb_prescaler != 1 {
        2
    } else {
        1
    }
}

/// The first oscillator spec in `s` for `source`, if any.
pub open spec fn first_oscillator(s: Seq<OscillatorSpec>, source: Oscillator) -> Option<OscillatorSpec>
    decreases s.len(),
{
    if s.len() == 0 {
        None
    } else if s[0].source == source {
        Some(s[0])
    } else {
        first_oscillator(s.drop_first(), source)
    }
}

/// The bus of the first row in `s` naming `peripheral`, if any.
pub open spec fn first_bus(s: Seq<PeripheralClock>, peripheral: Seq<char>) -> Option<Bus>
    decreases s.len(),
{
    if s.len() == 0 {
        None
    } else if s[0].peripheral@ == peripheral {
        Some(s[0].bus)
    } else {
        first_bus(s.drop_first(), peripheral)
    }
}

/// Leak a vector into a static slice.
///
/// Calls `Vec::leak`; the contract claims the slice holds the vector's
/// elements in order, as std documents.
#[verifier::external_body]
fn leak<T>(v: Vec<T>) -> (r: &'static [T])
    ensures
        r@ == v@,
{
    v.leak()
}

impl ClockTree {
    /// The modeled oscillators, in table order.
    pub closed spec fn oscillators_model(&self) -> Seq<OscillatorSpec> {
        self.oscillators@
    }

    /// The main PLL description.
    pub closed spec fn pll_model(&self) -> PllSpec {
        self.pll
    }

    /// The selectable SYSCLK sources.
    pub closed spec fn sources_model(&self) -> Seq<SysclkSource> {
        self.sysclk_sources@
    }

    /// The legal prescaler set for `bus` (the AHB set for `Ahb1`).
    pub closed spec fn prescalers_model(&self, bus: Bus) -> Seq<u32> {
        match bus {
            Bus::Ahb1 => self.ahb_prescalers@,
            Bus::Apb1 => self.apb1_prescalers@,
            Bus::Apb2 => self.apb2_prescalers@,
        }
    }

    /// The silicon frequency limits.
    pub closed spec fn limits_model(&self) -> SiliconLimits {
        self.limits
    }

    /// The peripheral → bus rows, in table order.
    pub closed spec fn clocks_model(&self) -> Seq<PeripheralClock> {
        self.peripheral_clocks@
    }

    /// The clock tree for the STM32F446RE (RM0390).
    pub fn f446re() -> (t: ClockTree)
        ensures
            t.oscillators_model() == nucleo_oscillators(),
            t.pll_model().m == (DividerRange { min: 2, max: 63 }),
            t.pll_model().n == (DividerRange { min: 50, max: 432 }),
            t.pll_model().p@ == seq![2u32, 4, 6, 8],
            t.pll_model().q == (DividerRange { min: 2, max: 15 }),
            t.pll_model().vco_in == (FreqRange { min_hz: 1_000_000, max_hz: 2_000_000 }),
            t.pll_model().vco_out == (FreqRange { min_hz: 100_000_000, max_hz: 432_000_000 }),
            t.pll_model().sources@ == seq![Oscillator::Hsi, Oscillator::Hse],
            t.sources_model() == seq![SysclkSource::Hsi, SysclkSource::Hse, SysclkSource::Pll],
            t.prescalers_model(Bus::Ahb1) == seq![1u32, 2, 4, 8, 16, 64, 128, 256, 512],
            t.prescalers_model(Bus::Apb1) == seq![1u32, 2, 4, 8, 16],
            t.prescalers_model(Bus::Apb2) == seq![1u32, 2, 4, 8, 16],
            t.limits_model() == (SiliconLimits {
                max_sysclk_hz: 180_000_000,
                max_ahb_hz: 180_000_000,
                max_apb1_hz: 45_000_000,
                max_apb2_hz: 90_000_000,
            }),
            t.clocks_model() == f446re_peripheral_clocks(),
            is_f446re_tree(t),
    {
        ClockTree {
            oscillators: nucleo_oscillator_slice(),
            pll: PllSpec {
                m: DividerRange { min: 2, max: 63 },
                n: DividerRange { min: 50, max: 432 },
                p: &[2, 4, 6, 8],
                q: DividerRange { min: 2, max: 15 },
                vco_in: FreqRange { min_hz: 1_000_000, max_hz: 2_000_000 },
                vco_out: FreqRange { min_hz: 100_000_000, max_hz: 432_000_000 },
                sources: &[Oscillator::Hsi, Oscillator::Hse],
            },
            sysclk_sources: &[SysclkSource::Hsi, SysclkSource::Hse, SysclkSource::Pll],
            ahb_prescalers: &[1, 2, 4, 8, 16, 64, 128, 256, 512],
            apb1_prescalers: &[1, 2, 4, 8, 16],
            apb2_prescalers: &[1, 2, 4, 8, 16],
            limits: SiliconLimits {
                max_sysclk_hz: 180_000_000,
                max_ahb_hz: 180_000_000,
                max_apb1_hz: 45_000_000,
                max_apb2_hz: 90_000_000,
            },
            peripheral_clocks: f446re_peripheral_clock_slice(),
        }
    }

    /// The clock tree for the STM32F411RE (RM0383).
    pub fn f411re() -> (t: ClockTree)
        ensures
            t.oscillators_model() == nucleo_oscillators(),
            t.pll_model().m == (DividerRange { min: 2, max: 63 }),
            t.pll_model().n == (DividerRange { min: 50, max: 432 }),
            t.pll_model().p@ == seq![2u32, 4, 6, 8],
            t.pll_model().q == (DividerRange { min: 2, max: 15 }),
            t.pll_model().vco_in == (FreqRange { min_hz: 1_000_000, max_hz: 2_000_000 }),
            t.pll_model().vco_out == (FreqRange { min_hz: 100_000_000, max_hz: 432_000_000 }),
            t.pll_model().sources@ == seq![Oscillator::Hsi, Oscillator::Hse],
            t.sources_model() == seq![SysclkSource::Hsi, SysclkSource::Hse, SysclkSource::Pll],
            t.prescalers_model(Bus::Ahb1) == seq![1u32, 2, 4, 8, 16, 64, 128, 256, 512],
            t.prescalers_model(Bus::Apb1) == seq![1u32, 2, 4, 8, 16],
            t.prescalers_model(Bus::Apb2) == seq![1u32, 2, 4, 8, 16],
            t.limits_model() == (SiliconLimits {
                max_sysclk_hz: 100_000_000,
                max_ahb_hz: 100_000_000,
                max_apb1_hz: 50_000_000,
                max_apb2_hz: 100_000_000,
            }),
            t.clocks_model() == f411re_peripheral_clocks(),
            is_f411re_tree(t),
    {
        ClockTree {
            oscillators: nucleo_oscillator_slice(),
            pll: PllSpec {
                m: DividerRange { min: 2, max: 63 },
                n: DividerRange { min: 50, max: 432 },
                p: &[2, 4, 6, 8],
                q: DividerRange { min: 2, max: 15 },
                vco_in: FreqRange { min_hz: 1_000_000, max_hz: 2_000_000 },
                vco_out: FreqRange { min_hz: 100_000_000, max_hz: 432_000_000 },
                sources: &[Oscillator::Hsi, Oscillator::Hse],
            },
            sysclk_sources: &[SysclkSource::Hsi, SysclkSource::Hse, SysclkSource::Pll],
            ahb_prescalers: &[1, 2, 4, 8, 16, 64, 128, 256, 512],
            apb1_prescalers: &[1, 2, 4, 8, 16],
            apb2_prescalers: &[1, 2, 4, 8, 16],
            limits: SiliconLimits {
                max_sysclk_hz: 100_000_000,
                max_ahb_hz: 100_000_000,
                max_apb1_hz: 50_000_000,
                max_apb2_hz: 100_000_000,
            },
            peripheral_clocks: f411re_peripheral_clock_slice(),
        }
    }

    pub fn oscillators(&self) -> (r: &'static [OscillatorSpec])
        ensures
            r@ == self.oscillators_model(),
    {
        self.oscillators
    }

    /// The spec for a single oscillator `source`, if the family exposes it.
    pub fn oscillator(&self, source: Oscillator) -> (r: Option<OscillatorSpec>)
        ensures
            r == first_oscillator(self.oscillators_model(), source),
    {
        let mut i: usize = 0;
        assert(self.oscillators@.skip(0) =~= self.oscillators@);
        while i < self.oscillators.len()
            invariant
                0 <= i <= self.oscillators@.len(),
                first_oscillator(self.oscillators@, source) == first_oscillator(self.oscillators@.skip(i as int), source),
            decreases self.oscillators@.len() - i,
        {
            let o = self.oscillators[i];
            assert(self.oscillators@.skip(i as int)[0] == o);
            if o.source == source {
                return Some(o);
            }
            assert(self.oscillators@.skip(i as int).drop_first() =~= self.oscillators@.skip(i + 1));
            i += 1;
        }
        None
    }

    pub fn pll(&self) -> (r: PllSpec)
        ensures
            r == self.pll_model(),
    {
        self.pll
    }

    pub fn sysclk_sources(&self) -> (r: &'static [SysclkSource])
        ensures
            r@ == self.sources_model(),
    {
        self.sysclk_sources
    }

    pub fn ahb_prescalers(&self) -> (r: &'static [u32])
        ensures
            r@ == self.prescalers_model(Bus::Ahb1),
    {
        self.ahb_prescalers
    }

    /// The legal prescaler set for an APB bus, or the AHB set for `Bus::Ahb1`.
    pub fn prescalers(&self, bus: Bus) -> (r: &'static [u32])
        ensures
            r@ == self.prescalers_model(bus),
    {
        match bus {
            Bus::Ahb1 => self.ahb_prescalers,
            Bus::Apb1 => self.apb1_prescalers,
            Bus::Apb2 => self.apb2_prescalers,
        }
    }

    pub fn limits(&self) -> (r: SiliconLimits)
        ensures
            r == self.limits_model(),
    {
        self.limits
    }

    pub fn peripheral_clocks(&self) -> (r: &'static [PeripheralClock])
        ensures
            r@ == self.clocks_model(),
    {
        self.peripheral_clocks
    }

    /// The bus that feeds `peripheral`, or `None` if the family does not
    /// model it (the caller then skips it rather than guessing).
    pub fn peripheral_bus(&self, peripheral: &str) -> (r: Option<Bus>)
        ensures
            r == first_bus(self.clocks_model(), peripheral@),
    {
        let mut i: usize = 0;
        assert(self.peripheral_clocks@.skip(0) =~= self.peripheral_clocks@);
        while i < self.peripheral_clocks.len()
            invariant
                0 <= i <= self.peripheral_clocks@.len(),
                first_bus(self.peripheral_clocks@, peripheral@) == first_bus(self.peripheral_clocks@.skip(i as int), peripheral@),
            decreases self.peripheral_clocks@.len() - i,
        {
            let p = self.peripheral_clocks[i];
            assert(self.peripheral_clocks@.skip(i as int)[0] == p);
            if str_eq(p.peripheral, peripheral) {
                return Some(p.bus);
            }
            assert(self.peripheral_clocks@.skip(i as int).drop_first() =~= self.peripheral_clocks@.skip(i + 1));
            i += 1;
        }
        None
    }

    /// The APBx-timer clock multiplier: timers on an APB bus run at the APB
    /// clock when the APB prescaler is 1, and at twice the APB clock otherwise.
    /// Returns `1` for the AHB bus.
    pub fn timer_multiplier(bus: Bus, apb_prescaler: u32) -> (r: u32)
        ensures
            r == timer_multiplier_spec(bus, apb_prescaler),
    {
        match bus {
            Bus::Apb1 | Bus::Apb2 => if apb_prescaler != 1 { 2 } else { 1 },
            Bus::Ahb1 => 1,
        }
    }

    /// `base` with `source` removed from the modeled oscillator set; every
    /// other part of the model is carried over unchanged.
    pub fn without_oscillator(base: ClockTree, source: Oscillator) -> (t: ClockTree)
        ensures
            t.oscillators_model() == base.oscillators_model().filter(|o: OscillatorSpec| o.source != source),
            t.pll_model() == base.pll_model(),
            t.sources_model() == base.sources_model(),
            forall|b: Bus| t.prescalers_model(b) == base.prescalers_model(b),
            t.limits_model() == base.limits_model(),
            t.clocks_model() == base.clocks_model(),
    {
        let ghost pred = |o: OscillatorSpec| o.source != source;
        let mut kept: Vec<OscillatorSpec> = Vec::new();
        let mut i: usize = 0;
        while i < base.oscillators.len()
            invariant
                0 <= i <= base.oscillators@.len(),
                pred == (|o: OscillatorSpec| o.source != source),
                kept@ == base.oscillators@.take(i as int).filter(pred),
            decreases base.oscillators@.len() - i,
        {
            let o = base.oscillators[i];
            proof {
                reveal_with_fuel(Seq::<_>::filter, 1);
                assert(base.oscillators@.take(i + 1).drop_last() =~= base.oscillators@.take(i as int));
            }
            if o.source != source {
                kept.push(o);
            }
            i += 1;
        }
        assert(base.oscillators@.take(base.oscillators@.len() as int) =~= base.oscillators@);
        ClockTree { oscillators: leak(kept), ..base }
    }
}

/// The oscillators of both NUCLEO boards: 16 MHz HSI, 8 MHz HSE (ST-LINK MCO,
/// 4–26 MHz crystal range), 32 kHz LSI, 32.768 kHz LSE.
pub open spec fn nucleo_oscillators() -> Seq<OscillatorSpec> {
    seq![
        OscillatorSpec { source: Oscillator::Hsi, nominal_hz: 16_000_000, range: FreqRange { min_hz: 16_000_000, max_hz: 16_000_000 } },
        OscillatorSpec { source: Oscillator::Hse, nominal_hz: 8_000_000, range: FreqRange { min_hz: 4_000_000, max_hz: 26_000_000 } },
        OscillatorSpec { source: Oscillator::Lsi, nominal_hz: 32_000, range: FreqRange { min_hz: 32_000, max_hz: 32_000 } },
        OscillatorSpec { source: Oscillator::Lse, nominal_hz: 32_768, range: FreqRange { min_hz: 32_768, max_hz: 32_768 } },
    ]
}

fn nucleo_oscillator_slice() -> (r: &'static [OscillatorSpec])
    ensures
        r@ == nucleo_oscillators(),
{
    &[
        OscillatorSpec { source: Oscillator::Hsi, nominal_hz: 16_000_000, range: FreqRange { min_hz: 16_000_000, max_hz: 16_000_000 } },
        OscillatorSpec { source: Oscillator::Hse, nominal_hz: 8_000_000, range: FreqRange { min_hz: 4_000_000, max_hz: 26_000_000 } },
        OscillatorSpec { source: Oscillator::Lsi, nominal_hz: 32_000, range: FreqRange { min_hz: 32_000, max_hz: 32_000 } },
        OscillatorSpec { source: Oscillator::Lse, nominal_hz: 32_768, range: FreqRange { min_hz: 32_768, max_hz: 32_768 } },
    ]
}

/// STM32F446RE peripheral → bus rows (RM0390 RCC enable registers).
pub open spec fn f446re_peripheral_clocks() -> Seq<PeripheralClock> {
    seq![
        PeripheralClock { peripheral: "USART1", bus: Bus::Apb2 },
        PeripheralClock { peripheral: "USART6", bus: Bus::Apb2 },
        PeripheralClock { peripheral: "SPI1", bus: Bus::Apb2 },
        PeripheralClock { peripheral: "SPI4", bus: Bus::Apb2 },
        PeripheralClock { peripheral: "SDIO", bus: Bus::Apb2 },
        PeripheralClock { peripheral: "ADC1", bus: Bus::Apb2 },
        PeripheralClock { peripheral: "ADC2", bus: Bus::Apb2 },
        PeripheralClock { peripheral: "ADC3", bus: Bus::Apb2 },
        PeripheralClock { peripheral: "SAI1", bus: Bus::Apb2 },
        PeripheralClock { peripheral: "SAI2", bus: Bus::Apb2 },
        PeripheralClock { peripheral: "TIM1", bus: Bus::Apb2 },
        PeripheralClock { peripheral: "TIM8", bus: Bus::Apb2 },
        PeripheralClock { peripheral: "TIM9", bus: Bus::Apb2 },
        PeripheralClock { peripheral: "TIM10", bus: Bus::Apb2 },
        PeripheralClock { peripheral: "TIM11", bus: Bus::Apb2 },
        PeripheralClock { peripheral: "USART2", bus: Bus::Apb1 },
        PeripheralClock { peripheral: "USART3", bus: Bus::Apb1 },
        PeripheralClock { peripheral: "UART4", bus: Bus::Apb1 },
        PeripheralClock { peripheral: "UART5", bus: Bus::Apb1 },
        PeripheralClock { peripheral: "SPI2", bus: Bus::Apb1 },
        PeripheralClock { peripheral: "SPI3", bus: Bus::Apb1 },
        PeripheralClock { peripheral: "I2C1", bus: Bus::Apb1 },
        PeripheralClock { peripheral: "I2C2", bus: Bus::Apb1 },
        PeripheralClock { peripheral: "I2C3", bus: Bus::Apb1 },
        PeripheralClock { peripheral: "FMPI2C1", bus: Bus::Apb1 },
        PeripheralClock { peripheral: "CAN1", bus: Bus::Apb1 },
        PeripheralClock { peripheral: "CAN2", bus: Bus::Apb1 },
        PeripheralClock { peripheral: "SPDIFRX", bus: Bus::Apb1 },
        PeripheralClock { peripheral: "CEC", bus: Bus::Apb1 },
        PeripheralClock { peripheral: "TIM2", bus: Bus::Apb1 },
        PeripheralClock { peripheral: "TIM3", bus: Bus::Apb1 },
        PeripheralClock { peripheral: "TIM4", bus: Bus::Apb1 },
        PeripheralClock { peripheral: "TIM5", bus: Bus::Apb1 },
        PeripheralClock { peripheral: "TIM6", bus: Bus::Apb1 },
        PeripheralClock { peripheral: "TIM7", bus: Bus::Apb1 },
        PeripheralClock { peripheral: "TIM12", bus: Bus::Apb1 },
        PeripheralClock { peripheral: "TIM13", bus: Bus::Apb1 },
        PeripheralClock { peripheral: "TIM14", bus: Bus::Apb1 },
        PeripheralClock { peripheral: "DCMI", bus: Bus::Ahb1 },
        PeripheralClock { peripheral: "QUADSPI", bus: Bus::Ahb1 },
        PeripheralClock { peripheral: "FMC", bus: Bus::Ahb1 },
    ]
}

fn f446re_peripheral_clock_slice() -> (r: &'static [PeripheralClock])
    ensures
        r@ == f446re_peripheral_clocks(),
{
    &[
        PeripheralClock { peripheral: "USART1", bus: Bus::Apb2 },
        PeripheralClock { peripheral: "USART6", bus: Bus::Apb2 },
        PeripheralClock { peripheral: "SPI1", bus: Bus::Apb2 },
        PeripheralClock { peripheral: "SPI4", bus: Bus::Apb2 },
        PeripheralClock { peripheral: "SDIO", bus: Bus::Apb2 },
        PeripheralClock { peripheral: "ADC1", bus: Bus::Apb2 },
        PeripheralClock { peripheral: "ADC2", bus: Bus::Apb2 },
        PeripheralClock { peripheral: "ADC3", bus: Bus::Apb2 },
        PeripheralClock { peripheral: "SAI1", bus: Bus::Apb2 },
        PeripheralClock { peripheral: "SAI2", bus: Bus::Apb2 },
        PeripheralClock { peripheral: "TIM1", bus: Bus::Apb2 },
        PeripheralClock { peripheral: "TIM8", bus: Bus::Apb2 },
        PeripheralClock { peripheral: "TIM9", bus: Bus::Apb2 },
        PeripheralClock { peripheral: "TIM10", bus: Bus::Apb2 },
        PeripheralClock { peripheral: "TIM11", bus: Bus::Apb2 },
        PeripheralClock { peripheral: "USART2", bus: Bus::Apb1 },
        PeripheralClock { peripheral: "USART3", bus: Bus::Apb1 },
        PeripheralClock { peripheral: "UART4", bus: Bus::Apb1 },
        PeripheralClock { peripheral: "UART5", bus: Bus::Apb1 },
        PeripheralClock { peripheral: "SPI2", bus: Bus::Apb1 },
        PeripheralClock { peripheral: "SPI3", bus: Bus::Apb1 },
        PeripheralClock { peripheral: "I2C1", bus: Bus::Apb1 },
        PeripheralClock { peripheral: "I2C2", bus: Bus::Apb1 },
        PeripheralClock { peripheral: "I2C3", bus: Bus::Apb1 },
        PeripheralClock { peripheral: "FMPI2C1", bus: Bus::Apb1 },
        PeripheralClock { peripheral: "CAN1", bus: Bus::Apb1 },
        PeripheralClock { peripheral: "CAN2", bus: Bus::Apb1 },
        PeripheralClock { peripheral: "SPDIFRX", bus: Bus::Apb1 },
        PeripheralClock { peripheral: "CEC", bus: Bus::Apb1 },
        PeripheralClock { peripheral: "TIM2", bus: Bus::Apb1 },
        PeripheralClock { peripheral: "TIM3", bus: Bus::Apb1 },
        PeripheralClock { peripheral: "TIM4", bus: Bus::Apb1 },
        PeripheralClock { peripheral: "TIM5", bus: Bus::Apb1 },
        PeripheralClock { peripheral: "TIM6", bus: Bus::Apb1 },
        PeripheralClock { peripheral: "TIM7", bus: Bus::Apb1 },
        PeripheralClock { peripheral: "TIM12", bus: Bus::Apb1 },
        PeripheralClock { peripheral: "TIM13", bus: Bus::Apb1 },
        PeripheralClock { peripheral: "TIM14", bus: Bus::Apb1 },
        PeripheralClock { peripheral: "DCMI", bus: Bus::Ahb1 },
        PeripheralClock { peripheral: "QUADSPI", bus: Bus::Ahb1 },
        PeripheralClock { peripheral: "FMC", bus: Bus::Ahb1 },
    ]
}

/// STM32F411RE peripheral → bus rows (RM0383 RCC enable registers); the F411 has no UART4/5, USART3 or CAN.
pub open spec fn f411re_peripheral_clocks() -> Seq<PeripheralClock> {
    seq![
        PeripheralClock { peripheral: "USART1", bus: Bus::Apb2 },
        PeripheralClock { peripheral: "USART6", bus: Bus::Apb2 },
        PeripheralClock { peripheral: "SPI1", bus: Bus::Apb2 },
        PeripheralClock { peripheral: "SPI4", bus: Bus::Apb2 },
        PeripheralClock { peripheral: "SPI5", bus: Bus::Apb2 },
        PeripheralClock { peripheral: "SDIO", bus: Bus::Apb2 },
        PeripheralClock { peripheral: "ADC1", bus: Bus::Apb2 },
        PeripheralClock { peripheral: "TIM1", bus: Bus::Apb2 },
        PeripheralClock { peripheral: "TIM9", bus: Bus::Apb2 },
        PeripheralClock { peripheral: "TIM10", bus: Bus::Apb2 },
        PeripheralClock { peripheral: "TIM11", bus: Bus::Apb2 },
        PeripheralClock { peripheral: "USART2", bus: Bus::Apb1 },
        PeripheralClock { peripheral: "SPI2", bus: Bus::Apb1 },
        PeripheralClock { peripheral: "SPI3", bus: Bus::Apb1 },
        PeripheralClock { peripheral: "I2C1", bus: Bus::Apb1 },
        PeripheralClock { peripheral: "I2C2", bus: Bus::Apb1 },
        PeripheralClock { peripheral: "I2C3", bus: Bus::Apb1 },
        PeripheralClock { peripheral: "TIM2", bus: Bus::Apb1 },
        PeripheralClock { peripheral: "TIM3", bus: Bus::Apb1 },
        PeripheralClock { peripheral: "TIM4", bus: Bus::Apb1 },
        PeripheralClock { peripheral: "TIM5", bus: Bus::Apb1 },
    ]
}

fn f411re_peripheral_clock_slice() -> (r: &'static [PeripheralClock])
    ensures
        r@ == f411re_peripheral_clocks(),
{
    &[
        PeripheralClock { peripheral: "USART1", bus: Bus::Apb2 },
        PeripheralClock { peripheral: "USART6", bus: Bus::Apb2 },
        PeripheralClock { peripheral: "SPI1", bus: Bus::Apb2 },
        PeripheralClock { peripheral: "SPI4", bus: Bus::Apb2 },
        PeripheralClock { peripheral: "SPI5", bus: Bus::Apb2 },
        PeripheralClock { peripheral: "SDIO", bus: Bus::Apb2 },
        PeripheralClock { peripheral: "ADC1", bus: Bus::Apb2 },
        PeripheralClock { peripheral: "TIM1", bus: Bus::Apb2 },
        PeripheralClock { peripheral: "TIM9", bus: Bus::Apb2 },
        PeripheralClock { peripheral: "TIM10", bus: Bus::Apb2 },
        PeripheralClock { peripheral: "TIM11", bus: Bus::Apb2 },
        PeripheralClock { peripheral: "USART2", bus: Bus::Apb1 },
        PeripheralClock { peripheral: "SPI2", bus: Bus::Apb1 },
        PeripheralClock { peripheral: "SPI3", bus: Bus::Apb1 },
        PeripheralClock { peripheral: "I2C1", bus: Bus::Apb1 },
        PeripheralClock { peripheral: "I2C2", bus: Bus::Apb1 },
        PeripheralClock { peripheral: "I2C3", bus: Bus::Apb1 },
        PeripheralClock { peripheral: "TIM2", bus: Bus::Apb1 },
        PeripheralClock { peripheral: "TIM3", bus: Bus::Apb1 },
        PeripheralClock { peripheral: "TIM4", bus: Bus::Apb1 },
        PeripheralClock { peripheral: "TIM5", bus: Bus::Apb1 },
    ]
}


/// Removing the oscillator `source` removes only that one: the filtered
/// table has no `source`, and reports every other oscillator as the base
/// table does.
pub proof fn lemma_without_oscillator_removes_only(base: Seq<OscillatorSpec>, source: Oscillator, other: Oscillator)
    ensures
        first_oscillator(base.filter(|o: OscillatorSpec| o.source != source), source) is None,
        other != source ==> first_oscillator(base.filter(|o: OscillatorSpec| o.source != source), other)
            == first_oscillator(base, other),
    decreases base.len(),
{
    let p = |o: OscillatorSpec| o.source != source;
    if base.len() == 0 {
        reveal_with_fuel(Seq::<_>::filter, 1);
    } else {
        lemma_without_oscillator_removes_only(base.drop_first(), source, other);
        assert(base =~= seq![base[0]] + base.drop_first());
        base.drop_first().lemma_filter_prepend(base[0], p);
        let f = base.filter(p);
        let g = base.drop_first().filter(p);
        if p(base[0]) {
            assert(f == seq![base[0]] + g);
            assert(f.drop_first() =~= g);
        } else {
            assert(f =~= g);
        }
    }
}


/// A family's clock tree is unique: two trees that both model the
/// STM32F446RE, or both the STM32F411RE, are the same tree.
pub proof fn lemma_family_tree_unique(t1: ClockTree, t2: ClockTree)
    requires
        (is_f446re_tree(t1) && is_f446re_tree(t2)) || (is_f411re_tree(t1) && is_f411re_tree(t2)),
    ensures
        t1 == t2,
{
    assert(t1.prescalers_model(Bus::Ahb1) == t2.prescalers_model(Bus::Ahb1));
    assert(t1.prescalers_model(Bus::Apb1) == t2.prescalers_model(Bus::Apb1));
    assert(t1.prescalers_model(Bus::Apb2) == t2.prescalers_model(Bus::Apb2));
    assert(t1.oscillators =~= t2.oscillators);
    assert(t1.sysclk_sources =~= t2.sysclk_sources);
    assert(t1.ahb_prescalers =~= t2.ahb_prescalers);
    assert(t1.apb1_prescalers =~= t2.apb1_prescalers);
    assert(t1.apb2_prescalers =~= t2.apb2_prescalers);
    assert(t1.peripheral_clocks =~= t2.peripheral_clocks);
    assert(t1.pll.p =~= t2.pll.p);
    assert(t1.pll.sources =~= t2.pll.sources);
    assert(t1.pll == t2.pll);
}

} // verus!
