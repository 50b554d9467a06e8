//! The IRQ/NVIC model of each supported family: which NVIC vector services
//! each EXTI line, and which vector(s) service each modeled peripheral's
//! interrupt (RM0390 Table 38 for the F446, RM0383 §10.1.2 for the F411).

use vstd::prelude::*;
use crate::text::str_eq;

verus! {

/// The NVIC vector servicing EXTI `line`: lines 0–4 each have their own,
/// 5–9 share `EXTI9_5`, 10–15 share `EXTI15_10`.
pub open spec fn exti_group(line: u8) -> Seq<char> {
    if line == 0 {
        "EXTI0"@
    } else if line == 1 {
        "EXTI1"@
    } else if line == 2 {
        "EXTI2"@
    } else if line == 3 {
        "EXTI3"@
    } else if line == 4 {
        "EXTI4"@
    } else if line <= 9 {
        "EXTI9_5"@
    } else if line <= 15 {
        "EXTI15_10"@
    } else {
        "INVALID_EXTI_LINE"@
    }
}

/// Map an EXTI line number (0..=15) to the NVIC vector name that services it;
/// any other line yields `"INVALID_EXTI_LINE"`.
pub fn group_for(line: u8) -> (s: &'static str)
    ensures
        s@ == exti_group(line),
{
    if line == 0 {
        "EXTI0"
    } else if line == 1 {
        "EXTI1"
    } else if line == 2 {
        "EXTI2"
    } else if line == 3 {
        "EXTI3"
    } else if line == 4 {
        "EXTI4"
    } else if line <= 9 {
        "EXTI9_5"
    } else if line <= 15 {
        "EXTI15_10"
    } else {
        "INVALID_EXTI_LINE"
    }
}

/// EXTI line → NVIC vector groupings for one device family (identical on
/// both supported families).
#[derive(Debug, Clone, Copy)]
pub struct ExtiGroups;

impl ExtiGroups {
    /// The EXTI groupings for the STM32F446RE.
    pub fn f446re() -> ExtiGroups {
        ExtiGroups
    }

    /// The EXTI groupings for the STM32F411RE.
    pub fn f411re() -> ExtiGroups {
        ExtiGroups
    }

    /// The NVIC vector name servicing EXTI `line` (0..=15).
    pub fn group_for(&self, line: u8) -> (s: &'static str)
        ensures
            s@ == exti_group(line),
    {
        group_for(line)
    }
}

/// One row of the vector table: a peripheral and the NVIC vector name(s)
/// servicing its interrupt(s), in vector-table order.
#[derive(Debug, Clone, Copy, PartialEq, Eq)]
pub struct PeripheralIrq {
    /// Database peripheral name, e.g. `"USART2"`.
    pub peripheral: &'static str,
    /// Most peripherals have one vector; I2Cx has two (`I2Cx_EV`, `I2Cx_ER`).
    pub vectors: &'static [&'static str],
}

/// The complete peripheral-interrupt vector map for one device family.
#[derive(Debug, Clone, Copy)]
pub struct IrqMap {
    rows: &'static [PeripheralIrq],
}

impl View for IrqMap {
    type V = Seq<PeripheralIrq>;

    closed spec fn view(&self) -> Seq<PeripheralIrq> {
        self.rows@
    }
}

/// The first row of `rows` naming `peripheral`, if any.
pub open spec fn first_row(rows: Seq<PeripheralIrq>, peripheral: Seq<char>) -> Option<PeripheralIrq>
    decreases rows.len(),
{
    if rows.len() == 0 {
        None
    } else if rows[0].peripheral@ == peripheral {
        Some(rows[0])
    } else {
        first_row(rows.drop_first(), peripheral)
    }
}

impl IrqMap {
    /// The IRQ vector map for the STM32F446RE.
    pub fn f446re() -> (m: IrqMap)
        ensures
            m@ == f446re_rows(),
    {
        IrqMap { rows: f446re_row_slice() }
    }

    /// The IRQ vector map for the STM32F411RE.
    pub fn f411re() -> (m: IrqMap)
        ensures
            m@ == f411re_rows(),
    {
        IrqMap { rows: f411re_row_slice() }
    }

    /// Every modeled row for this family.
    pub fn rows(&self) -> (r: &'static [PeripheralIrq])
        ensures
            r@ == self@,
    {
        self.rows
    }

    /// Whether this family models an interrupt vector for `peripheral`.
    pub fn has_peripheral(&self, peripheral: &str) -> (r: bool)
        ensures
            r == exists|i: int| 0 <= i < self@.len() && (#[trigger] self@[i]).peripheral@ == peripheral@,
    {
        let mut i: usize = 0;
        while i < self.rows.len()
            invariant
                0 <= i <= self@.len(),
                self@ == self.rows@,
                forall|j: int| 0 <= j < i ==> (#[trigger] self@[j]).peripheral@ != peripheral@,
            decreases self@.len() - i,
        {
            if str_eq(self.rows[i].peripheral, peripheral) {
                assert(self@[i as int].peripheral@ == peripheral@);
                return true;
            }
            i += 1;
        }
        false
    }

    /// The NVIC vector name(s) servicing `peripheral`'s interrupt(s), or an
    /// empty slice if the family does not model the peripheral.
    pub fn vectors(&self, peripheral: &str) -> (r: &'static [&'static str])
        ensures
            match first_row(self@, peripheral@) {
                Some(row) => r@ == row.vectors@,
                None => r@.len() == 0,
            },
    {
        let mut i: usize = 0;
        assert(self.rows@.skip(0) =~= self.rows@);
        while i < self.rows.len()
            invariant
                0 <= i <= self.rows@.len(),
                self@ == self.rows@,
                first_row(self.rows@, peripheral@) == first_row(self.rows@.skip(i as int), peripheral@),
            decreases self.rows@.len() - i,
        {
            let row = self.rows[i];
            assert(self.rows@.skip(i as int)[0] == row);
            if str_eq(row.peripheral, peripheral) {
                return row.vectors;
            }
            assert(self.rows@.skip(i as int).drop_first() =~= self.rows@.skip(i + 1));
            i += 1;
        }
        let empty: &'static [&'static str] = &[];
        empty
    }
}

/// STM32F446RE interrupt rows (RM0390 §10.1.2 Table 38) for the USART/UART, SPI, I2C and TIM instances the F446 has.
pub open spec fn f446re_rows() -> Seq<PeripheralIrq> {
    seq![
        PeripheralIrq { peripheral: "USART1", vectors: &["USART1"] },
        PeripheralIrq { peripheral: "USART2", vectors: &["USART2"] },
        PeripheralIrq { peripheral: "USART3", vectors: &["USART3"] },
        PeripheralIrq { peripheral: "UART4", vectors: &["UART4"] },
        PeripheralIrq { peripheral: "UART5", vectors: &["UART5"] },
        PeripheralIrq { peripheral: "USART6", vectors: &["USART6"] },
        PeripheralIrq { peripheral: "SPI1", vectors: &["SPI1"] },
        PeripheralIrq { peripheral: "SPI2", vectors: &["SPI2"] },
        PeripheralIrq { peripheral: "SPI3", vectors: &["SPI3"] },
        PeripheralIrq { peripheral: "SPI4", vectors: &["SPI4"] },
        PeripheralIrq { peripheral: "I2C1", vectors: &["I2C1_EV", "I2C1_ER"] },
        PeripheralIrq { peripheral: "I2C2", vectors: &["I2C2_EV", "I2C2_ER"] },
        PeripheralIrq { peripheral: "I2C3", vectors: &["I2C3_EV", "I2C3_ER"] },
        PeripheralIrq { peripheral: "TIM2", vectors: &["TIM2"] },
        PeripheralIrq { peripheral: "TIM3", vectors: &["TIM3"] },
        PeripheralIrq { peripheral: "TIM4", vectors: &["TIM4"] },
        PeripheralIrq { peripheral: "TIM5", vectors: &["TIM5"] },
    ]
}

fn f446re_row_slice() -> (r: &'static [PeripheralIrq])
    ensures
        r@ == f446re_rows(),
{
    &[
        PeripheralIrq { peripheral: "USART1", vectors: &["USART1"] },
        PeripheralIrq { peripheral: "USART2", vectors: &["USART2"] },
        PeripheralIrq { peripheral: "USART3", vectors: &["USART3"] },
        PeripheralIrq { peripheral: "UART4", vectors: &["UART4"] },
        PeripheralIrq { peripheral: "UART5", vectors: &["UART5"] },
        PeripheralIrq { peripheral: "USART6", vectors: &["USART6"] },
        PeripheralIrq { peripheral: "SPI1", vectors: &["SPI1"] },
        PeripheralIrq { peripheral: "SPI2", vectors: &["SPI2"] },
        PeripheralIrq { peripheral: "SPI3", vectors: &["SPI3"] },
        PeripheralIrq { peripheral: "SPI4", vectors: &["SPI4"] },
        PeripheralIrq { peripheral: "I2C1", vectors: &["I2C1_EV", "I2C1_ER"] },
        PeripheralIrq { peripheral: "I2C2", vectors: &["I2C2_EV", "I2C2_ER"] },
        PeripheralIrq { peripheral: "I2C3", vectors: &["I2C3_EV", "I2C3_ER"] },
        PeripheralIrq { peripheral: "TIM2", vectors: &["TIM2"] },
        PeripheralIrq { peripheral: "TIM3", vectors: &["TIM3"] },
        PeripheralIrq { peripheral: "TIM4", vectors: &["TIM4"] },
        PeripheralIrq { peripheral: "TIM5", vectors: &["TIM5"] },
    ]
}

/// STM32F411RE interrupt rows (RM0383 §10.1.2): no USART3 or UART4/5.
pub open spec fn f411re_rows() -> Seq<PeripheralIrq> {
    seq![
        PeripheralIrq { peripheral: "USART1", vectors: &["USART1"] },
        PeripheralIrq { peripheral: "USART2", vectors: &["USART2"] },
        PeripheralIrq { peripheral: "USART6", vectors: &["USART6"] },
        PeripheralIrq { peripheral: "SPI1", vectors: &["SPI1"] },
        PeripheralIrq { peripheral: "SPI2", vectors: &["SPI2"] },
        PeripheralIrq { peripheral: "SPI3", vectors: &["SPI3"] },
        PeripheralIrq { peripheral: "SPI4", vectors: &["SPI4"] },
        PeripheralIrq { peripheral: "I2C1", vectors: &["I2C1_EV", "I2C1_ER"] },
        PeripheralIrq { peripheral: "I2C2", vectors: &["I2C2_EV", "I2C2_ER"] },
        PeripheralIrq { peripheral: "I2C3", vectors: &["I2C3_EV", "I2C3_ER"] },
        PeripheralIrq { peripheral: "TIM2", vectors: &["TIM2"] },
        PeripheralIrq { peripheral: "TIM3", vectors: &["TIM3"] },
        PeripheralIrq { peripheral: "TIM4", vectors: &["TIM4"] },
        PeripheralIrq { peripheral: "TIM5", vectors: &["TIM5"] },
    ]
}

fn f411re_row_slice() -> (r: &'static [PeripheralIrq])
    ensures
        r@ == f411re_rows(),
{
    &[
        PeripheralIrq { peripheral: "USART1", vectors: &["USART1"] },
        PeripheralIrq { peripheral: "USART2", vectors: &["USART2"] },
        PeripheralIrq { peripheral: "USART6", vectors: &["USART6"] },
        PeripheralIrq { peripheral: "SPI1", vectors: &["SPI1"] },
        PeripheralIrq { peripheral: "SPI2", vectors: &["SPI2"] },
        PeripheralIrq { peripheral: "SPI3", vectors: &["SPI3"] },
        PeripheralIrq { peripheral: "SPI4", vectors: &["SPI4"] },
        PeripheralIrq { peripheral: "I2C1", vectors: &["I2C1_EV", "I2C1_ER"] },
        PeripheralIrq { peripheral: "I2C2", vectors: &["I2C2_EV", "I2C2_ER"] },
        PeripheralIrq { peripheral: "I2C3", vectors: &["I2C3_EV", "I2C3_ER"] },
        PeripheralIrq { peripheral: "TIM2", vectors: &["TIM2"] },
        PeripheralIrq { peripheral: "TIM3", vectors: &["TIM3"] },
        PeripheralIrq { peripheral: "TIM4", vectors: &["TIM4"] },
        PeripheralIrq { peripheral: "TIM5", vectors: &["TIM5"] },
    ]
}


proof fn lemma_f446re_vectors(i: int)
    requires
        0 <= i < f446re_rows().len(),
    ensures
        f446re_rows()[i].vectors@.len() > 0,
{
    if i == 0 {
    } else if i == 1 {
    } else if i == 2 {
    } else if i == 3 {
    } else if i == 4 {
    } else if i == 5 {
    } else if i == 6 {
    } else if i == 7 {
    } else if i == 8 {
    } else if i == 9 {
    } else if i == 10 {
    } else if i == 11 {
    } else if i == 12 {
    } else if i == 13 {
    } else if i == 14 {
    } else if i == 15 {
    } else if i == 16 {
    }
}

proof fn lemma_f411re_vectors(i: int)
    requires
        0 <= i < f411re_rows().len(),
    ensures
        f411re_rows()[i].vectors@.len() > 0,
{
    if i == 0 {
    } else if i == 1 {
    } else if i == 2 {
    } else if i == 3 {
    } else if i == 4 {
    } else if i == 5 {
    } else if i == 6 {
    } else if i == 7 {
    } else if i == 8 {
    } else if i == 9 {
    } else if i == 10 {
    } else if i == 11 {
    } else if i == 12 {
    } else if i == 13 {
    }
}

proof fn lemma_modeled_iff_vectors(rows: Seq<PeripheralIrq>, peripheral: Seq<char>)
    requires
        forall|i: int| 0 <= i < rows.len() ==> (#[trigger] rows[i]).vectors@.len() > 0,
    ensures
        (exists|i: int| 0 <= i < rows.len() && (#[trigger] rows[i]).peripheral@ == peripheral) == (match first_row(rows, peripheral) {
            Some(row) => row.vectors@.len() > 0,
            None => false,
        }),
    decreases rows.len(),
{
    if rows.len() > 0 {
        assert forall|i: int| 0 <= i < rows.drop_first().len() implies (#[trigger] rows.drop_first()[i]).vectors@.len() > 0 by {
            assert(rows.drop_first()[i] == rows[i + 1]);
        }
        lemma_modeled_iff_vectors(rows.drop_first(), peripheral);
        if rows[0].peripheral@ != peripheral {
            if exists|i: int| 0 <= i < rows.len() && (#[trigger] rows[i]).peripheral@ == peripheral {
                let i = choose|i: int| 0 <= i < rows.len() && (#[trigger] rows[i]).peripheral@ == peripheral;
                assert(rows.drop_first()[i - 1] == rows[i]);
            }
            if exists|i: int| 0 <= i < rows.drop_first().len() && (#[trigger] rows.drop_first()[i]).peripheral@ == peripheral {
                let i = choose|i: int| 0 <= i < rows.drop_first().len() && (#[trigger] rows.drop_first()[i]).peripheral@ == peripheral;
                assert(rows[i + 1] == rows.drop_first()[i]);
            }
        } else {
            assert(rows[0].peripheral@ == peripheral);
        }
    }
}

/// In both families' maps a peripheral is modeled exactly when it has at
/// least one vector: `has_peripheral(p)` is `!vectors(p).is_empty()`.
pub proof fn lemma_has_peripheral_iff_vectors(m: IrqMap, peripheral: Seq<char>)
    requires
        m@ == f446re_rows() || m@ == f411re_rows(),
    ensures
        (exists|i: int| 0 <= i < m@.len() && (#[trigger] m@[i]).peripheral@ == peripheral) == (match first_row(m@, peripheral) {
            Some(row) => row.vectors@.len() > 0,
            None => false,
        }),
{
    assert forall|i: int| 0 <= i < m@.len() implies (#[trigger] m@[i]).vectors@.len() > 0 by {
        if m@ == f446re_rows() {
            lemma_f446re_vectors(i);
        } else {
            lemma_f411re_vectors(i);
        }
    }
    lemma_modeled_iff_vectors(m@, peripheral);
}

} // verus!
