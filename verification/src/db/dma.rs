//! The DMA request-mapping model of each supported family: which
//! `(controller, stream, channel)` slots serve each `(peripheral, direction)`
//! request (RM0390 Tables 28/29 for the F446, RM0383 Tables 27/28 for the F411).

use vstd::prelude::*;
use crate::text::str_eq;

verus! {

/// Which of the two DMA controllers a stream lives on.
#[derive(Debug, Clone, Copy, PartialEq, Eq, PartialOrd, Ord, Hash, Structural)]
pub enum Controller {
    Dma1,
    Dma2,
}

impl Controller {
    pub fn name(self) -> (s: &'static str)
        ensures
            s@ == match self {
                Controller::Dma1 => "DMA1"@,
                Controller::Dma2 => "DMA2"@,
            },
    {
        match self {
            Controller::Dma1 => "DMA1",
            Controller::Dma2 => "DMA2",
        }
    }
}

/// The transfer direction of a DMA request, as seen from the peripheral.
#[derive(Debug, Clone, Copy, PartialEq, Eq, PartialOrd, Ord, Hash, Structural)]
pub enum Direction {
    /// Memory → peripheral (e.g. USART_TX, SPI_TX/MOSI).
    Tx,
    /// Peripheral → memory (e.g. USART_RX, SPI_RX/MISO, ADC).
    Rx,
}

/// The direction a signal spelling names: `TX`/`MOSI` transmit, `RX`/`MISO` receive.
pub open spec fn direction_of_signal(s: Seq<char>) -> Option<Direction> {
    if s == "TX"@ || s == "MOSI"@ {
        Some(Direction::Tx)
    } else if s == "RX"@ || s == "MISO"@ {
        Some(Direction::Rx)
    } else {
        None
    }
}

impl Direction {
    pub fn name(self) -> (s: &'static str)
        ensures
            s@ == match self {
                Direction::Tx => "TX"@,
                Direction::Rx => "RX"@,
            },
    {
        match self {
            Direction::Tx => "TX",
            Direction::Rx => "RX",
        }
    }

    /// Map a peripheral signal spelling to a DMA direction, accepting SPI's
    /// `MOSI`/`MISO` aliases besides the canonical `TX`/`RX`.
    pub fn from_signal(signal: &str) -> (r: Option<Direction>)
        ensures
            r == direction_of_signal(signal@),
    {
        if str_eq(signal, "TX") || str_eq(signal, "MOSI") {
            Some(Direction::Tx)
        } else if str_eq(signal, "RX") || str_eq(signal, "MISO") {
            Some(Direction::Rx)
        } else {
            None
        }
    }
}

/// One concrete DMA slot: a `(controller, stream, channel)` triple.
#[derive(Debug, Clone, Copy, PartialEq, Eq, PartialOrd, Ord, Hash, Structural)]
pub struct Slot {
    pub controller: Controller,
    pub stream: u8,
    pub channel: u8,
}

impl Slot {
    pub fn new(controller: Controller, stream: u8, channel: u8) -> (s: Slot)
        ensures
            s == (Slot { controller, stream, channel }),
    {
        Slot { controller, stream, channel }
    }
}

/// One row of the request-mapping table: a `(peripheral, direction)` request
/// and the slot that serves it.
#[derive(Debug, Clone, Copy, PartialEq, Eq)]
pub struct DmaRequest {
    /// Database peripheral name, e.g. `"USART2"`.
    pub peripheral: &'static str,
    pub direction: Direction,
    pub slot: Slot,
}

/// The complete DMA request-mapping model for one device family.
#[derive(Debug, Clone, Copy)]
pub struct DmaMap {
    requests: &'static [DmaRequest],
}

impl View for DmaMap {
    type V = Seq<DmaRequest>;

    closed spec fn view(&self) -> Seq<DmaRequest> {
        self.requests@
    }
}

/// Whether `r` is a request of `peripheral` in `direction`.
pub open spec fn serves(r: DmaRequest, peripheral: Seq<char>, direction: Direction) -> bool {
    r.peripheral@ == peripheral && r.direction == direction
}

/// The slots of `rows` that serve `(peripheral, direction)`, in table order.
pub open spec fn candidate_slots(rows: Seq<DmaRequest>, peripheral: Seq<char>, direction: Direction) -> Seq<Slot>
    decreases rows.len(),
{
    if rows.len() == 0 {
        Seq::empty()
    } else {
        let rest = candidate_slots(rows.drop_last(), peripheral, direction);
        if serves(rows.last(), peripheral, direction) {
            rest.push(rows.last().slot)
        } else {
            rest
        }
    }
}

impl DmaMap {
    /// The DMA request map for the STM32F446RE (RM0390 Tables 28/29).
    pub fn f446re() -> (m: DmaMap)
        ensures
            m@ == f446re_requests(),
    {
        DmaMap { requests: f446re_request_slice() }
    }

    /// The DMA request map for the STM32F411RE (RM0383 Tables 27/28).
    pub fn f411re() -> (m: DmaMap)
        ensures
            m@ == f411re_requests(),
    {
        DmaMap { requests: f411re_request_slice() }
    }

    /// Every modeled request row for this family.
    pub fn requests(&self) -> (r: &'static [DmaRequest])
        ensures
            r@ == self@,
    {
        self.requests
    }

    /// The slots that can serve `(peripheral, direction)`, in table order;
    /// empty when the family does not model the request.
    pub fn candidates(&self, peripheral: &str, direction: Direction) -> (r: Vec<Slot>)
        ensures
            r@ == candidate_slots(self@, peripheral@, direction),
    {
        let mut r: Vec<Slot> = Vec::new();
        let mut i: usize = 0;
        while i < self.requests.len()
            invariant
                0 <= i <= self@.len(),
                self@ == self.requests@,
                r@ == candidate_slots(self@.take(i as int), peripheral@, direction),
            decreases self@.len() - i,
        {
            let q = self.requests[i];
            assert(self@.take(i + 1).drop_last() =~= self@.take(i as int));
            if str_eq(q.peripheral, peripheral) && q.direction == direction {
                r.push(q.slot);
            }
            i += 1;
        }
        assert(self@.take(self@.len() as int) =~= self@);
        r
    }

    /// Whether this family models any DMA request for `peripheral`.
    pub fn has_peripheral(&self, peripheral: &str) -> (r: bool)
        ensures
            r == exists|i: int| 0 <= i < self@.len() && (#[trigger] self@[i]).peripheral@ == peripheral@,
    {
        let mut i: usize = 0;
        while i < self.requests.len()
            invariant
                0 <= i <= self@.len(),
                self@ == self.requests@,
                forall|j: int| 0 <= j < i ==> (#[trigger] self@[j]).peripheral@ != peripheral@,
            decreases self@.len() - i,
        {
            if str_eq(self.requests[i].peripheral, peripheral) {
                assert(self@[i as int].peripheral@ == peripheral@);
                return true;
            }
            i += 1;
        }
        false
    }
}

/// STM32F446RE request rows (RM0390 Table 28 = DMA1, Table 29 = DMA2), every stream row of a request listed in stream order.
pub open spec fn f446re_requests() -> Seq<DmaRequest> {
    seq![
        DmaRequest { peripheral: "SPI3", direction: Direction::Rx, slot: Slot { controller: Controller::Dma1, stream: 0, channel: 0 } },
        DmaRequest { peripheral: "SPI3", direction: Direction::Rx, slot: Slot { controller: Controller::Dma1, stream: 2, channel: 0 } },
        DmaRequest { peripheral: "SPI3", direction: Direction::Tx, slot: Slot { controller: Controller::Dma1, stream: 5, channel: 0 } },
        DmaRequest { peripheral: "SPI3", direction: Direction::Tx, slot: Slot { controller: Controller::Dma1, stream: 7, channel: 0 } },
        DmaRequest { peripheral: "I2C1", direction: Direction::Rx, slot: Slot { controller: Controller::Dma1, stream: 0, channel: 1 } },
        DmaRequest { peripheral: "I2C1", direction: Direction::Rx, slot: Slot { controller: Controller::Dma1, stream: 5, channel: 1 } },
        DmaRequest { peripheral: "I2C1", direction: Direction::Tx, slot: Slot { controller: Controller::Dma1, stream: 6, channel: 1 } },
        DmaRequest { peripheral: "I2C1", direction: Direction::Tx, slot: Slot { controller: Controller::Dma1, stream: 7, channel: 1 } },
        DmaRequest { peripheral: "TIM4", direction: Direction::Rx, slot: Slot { controller: Controller::Dma1, stream: 0, channel: 2 } },
        DmaRequest { peripheral: "TIM4", direction: Direction::Tx, slot: Slot { controller: Controller::Dma1, stream: 6, channel: 2 } },
        DmaRequest { peripheral: "I2C3", direction: Direction::Rx, slot: Slot { controller: Controller::Dma1, stream: 1, channel: 3 } },
        DmaRequest { peripheral: "I2C3", direction: Direction::Rx, slot: Slot { controller: Controller::Dma1, stream: 2, channel: 3 } },
        DmaRequest { peripheral: "I2C3", direction: Direction::Tx, slot: Slot { controller: Controller::Dma1, stream: 4, channel: 3 } },
        DmaRequest { peripheral: "UART5", direction: Direction::Rx, slot: Slot { controller: Controller::Dma1, stream: 0, channel: 4 } },
        DmaRequest { peripheral: "UART5", direction: Direction::Tx, slot: Slot { controller: Controller::Dma1, stream: 7, channel: 4 } },
        DmaRequest { peripheral: "USART3", direction: Direction::Rx, slot: Slot { controller: Controller::Dma1, stream: 1, channel: 4 } },
        DmaRequest { peripheral: "USART3", direction: Direction::Tx, slot: Slot { controller: Controller::Dma1, stream: 3, channel: 4 } },
        DmaRequest { peripheral: "UART4", direction: Direction::Rx, slot: Slot { controller: Controller::Dma1, stream: 2, channel: 4 } },
        DmaRequest { peripheral: "UART4", direction: Direction::Tx, slot: Slot { controller: Controller::Dma1, stream: 4, channel: 4 } },
        DmaRequest { peripheral: "USART2", direction: Direction::Rx, slot: Slot { controller: Controller::Dma1, stream: 5, channel: 4 } },
        DmaRequest { peripheral: "USART2", direction: Direction::Tx, slot: Slot { controller: Controller::Dma1, stream: 6, channel: 4 } },
        DmaRequest { peripheral: "TIM2", direction: Direction::Rx, slot: Slot { controller: Controller::Dma1, stream: 5, channel: 3 } },
        DmaRequest { peripheral: "TIM2", direction: Direction::Tx, slot: Slot { controller: Controller::Dma1, stream: 6, channel: 3 } },
        DmaRequest { peripheral: "TIM3", direction: Direction::Rx, slot: Slot { controller: Controller::Dma1, stream: 4, channel: 5 } },
        DmaRequest { peripheral: "TIM3", direction: Direction::Tx, slot: Slot { controller: Controller::Dma1, stream: 5, channel: 5 } },
        DmaRequest { peripheral: "TIM5", direction: Direction::Rx, slot: Slot { controller: Controller::Dma1, stream: 0, channel: 6 } },
        DmaRequest { peripheral: "TIM5", direction: Direction::Tx, slot: Slot { controller: Controller::Dma1, stream: 1, channel: 6 } },
        DmaRequest { peripheral: "SPI2", direction: Direction::Rx, slot: Slot { controller: Controller::Dma1, stream: 3, channel: 0 } },
        DmaRequest { peripheral: "SPI2", direction: Direction::Tx, slot: Slot { controller: Controller::Dma1, stream: 4, channel: 0 } },
        DmaRequest { peripheral: "I2C2", direction: Direction::Rx, slot: Slot { controller: Controller::Dma1, stream: 2, channel: 7 } },
        DmaRequest { peripheral: "I2C2", direction: Direction::Rx, slot: Slot { controller: Controller::Dma1, stream: 3, channel: 7 } },
        DmaRequest { peripheral: "I2C2", direction: Direction::Tx, slot: Slot { controller: Controller::Dma1, stream: 7, channel: 7 } },
        DmaRequest { peripheral: "ADC1", direction: Direction::Rx, slot: Slot { controller: Controller::Dma2, stream: 0, channel: 0 } },
        DmaRequest { peripheral: "ADC1", direction: Direction::Rx, slot: Slot { controller: Controller::Dma2, stream: 4, channel: 0 } },
        DmaRequest { peripheral: "SPI1", direction: Direction::Rx, slot: Slot { controller: Controller::Dma2, stream: 0, channel: 3 } },
        DmaRequest { peripheral: "SPI1", direction: Direction::Rx, slot: Slot { controller: Controller::Dma2, stream: 2, channel: 3 } },
        DmaRequest { peripheral: "SPI1", direction: Direction::Tx, slot: Slot { controller: Controller::Dma2, stream: 3, channel: 3 } },
        DmaRequest { peripheral: "SPI1", direction: Direction::Tx, slot: Slot { controller: Controller::Dma2, stream: 5, channel: 3 } },
        DmaRequest { peripheral: "USART1", direction: Direction::Rx, slot: Slot { controller: Controller::Dma2, stream: 2, channel: 4 } },
        DmaRequest { peripheral: "USART1", direction: Direction::Rx, slot: Slot { controller: Controller::Dma2, stream: 5, channel: 4 } },
        DmaRequest { peripheral: "USART1", direction: Direction::Tx, slot: Slot { controller: Controller::Dma2, stream: 7, channel: 4 } },
        DmaRequest { peripheral: "USART6", direction: Direction::Rx, slot: Slot { controller: Controller::Dma2, stream: 1, channel: 5 } },
        DmaRequest { peripheral: "USART6", direction: Direction::Rx, slot: Slot { controller: Controller::Dma2, stream: 2, channel: 5 } },
        DmaRequest { peripheral: "USART6", direction: Direction::Tx, slot: Slot { controller: Controller::Dma2, stream: 6, channel: 5 } },
        DmaRequest { peripheral: "USART6", direction: Direction::Tx, slot: Slot { controller: Controller::Dma2, stream: 7, channel: 5 } },
    ]
}

fn f446re_request_slice() -> (r: &'static [DmaRequest])
    ensures
        r@ == f446re_requests(),
{
    &[
        DmaRequest { peripheral: "SPI3", direction: Direction::Rx, slot: Slot { controller: Controller::Dma1, stream: 0, channel: 0 } },
        DmaRequest { peripheral: "SPI3", direction: Direction::Rx, slot: Slot { controller: Controller::Dma1, stream: 2, channel: 0 } },
        DmaRequest { peripheral: "SPI3", direction: Direction::Tx, slot: Slot { controller: Controller::Dma1, stream: 5, channel: 0 } },
        DmaRequest { peripheral: "SPI3", direction: Direction::Tx, slot: Slot { controller: Controller::Dma1, stream: 7, channel: 0 } },
        DmaRequest { peripheral: "I2C1", direction: Direction::Rx, slot: Slot { controller: Controller::Dma1, stream: 0, channel: 1 } },
        DmaRequest { peripheral: "I2C1", direction: Direction::Rx, slot: Slot { controller: Controller::Dma1, stream: 5, channel: 1 } },
        DmaRequest { peripheral: "I2C1", direction: Direction::Tx, slot: Slot { controller: Controller::Dma1, stream: 6, channel: 1 } },
        DmaRequest { peripheral: "I2C1", direction: Direction::Tx, slot: Slot { controller: Controller::Dma1, stream: 7, channel: 1 } },
        DmaRequest { peripheral: "TIM4", direction: Direction::Rx, slot: Slot { controller: Controller::Dma1, stream: 0, channel: 2 } },
        DmaRequest { peripheral: "TIM4", direction: Direction::Tx, slot: Slot { controller: Controller::Dma1, stream: 6, channel: 2 } },
        DmaRequest { peripheral: "I2C3", direction: Direction::Rx, slot: Slot { controller: Controller::Dma1, stream: 1, channel: 3 } },
        DmaRequest { peripheral: "I2C3", direction: Direction::Rx, slot: Slot { controller: Controller::Dma1, stream: 2, channel: 3 } },
        DmaRequest { peripheral: "I2C3", direction: Direction::Tx, slot: Slot { controller: Controller::Dma1, stream: 4, channel: 3 } },
        DmaRequest { peripheral: "UART5", direction: Direction::Rx, slot: Slot { controller: Controller::Dma1, stream: 0, channel: 4 } },
        DmaRequest { peripheral: "UART5", direction: Direction::Tx, slot: Slot { controller: Controller::Dma1, stream: 7, channel: 4 } },
        DmaRequest { peripheral: "USART3", direction: Direction::Rx, slot: Slot { controller: Controller::Dma1, stream: 1, channel: 4 } },
        DmaRequest { peripheral: "USART3", direction: Direction::Tx, slot: Slot { controller: Controller::Dma1, stream: 3, channel: 4 } },
        DmaRequest { peripheral: "UART4", direction: Direction::Rx, slot: Slot { controller: Controller::Dma1, stream: 2, channel: 4 } },
        DmaRequest { peripheral: "UART4", direction: Direction::Tx, slot: Slot { controller: Controller::Dma1, stream: 4, channel: 4 } },
        DmaRequest { peripheral: "USART2", direction: Direction::Rx, slot: Slot { controller: Controller::Dma1, stream: 5, channel: 4 } },
        DmaRequest { peripheral: "USART2", direction: Direction::Tx, slot: Slot { controller: Controller::Dma1, stream: 6, channel: 4 } },
        DmaRequest { peripheral: "TIM2", direction: Direction::Rx, slot: Slot { controller: Controller::Dma1, stream: 5, channel: 3 } },
        DmaRequest { peripheral: "TIM2", direction: Direction::Tx, slot: Slot { controller: Controller::Dma1, stream: 6, channel: 3 } },
        DmaRequest { peripheral: "TIM3", direction: Direction::Rx, slot: Slot { controller: Controller::Dma1, stream: 4, channel: 5 } },
        DmaRequest { peripheral: "TIM3", direction: Direction::Tx, slot: Slot { controller: Controller::Dma1, stream: 5, channel: 5 } },
        DmaRequest { peripheral: "TIM5", direction: Direction::Rx, slot: Slot { controller: Controller::Dma1, stream: 0, channel: 6 } },
        DmaRequest { peripheral: "TIM5", direction: Direction::Tx, slot: Slot { controller: Controller::Dma1, stream: 1, channel: 6 } },
        DmaRequest { peripheral: "SPI2", direction: Direction::Rx, slot: Slot { controller: Controller::Dma1, stream: 3, channel: 0 } },
        DmaRequest { peripheral: "SPI2", direction: Direction::Tx, slot: Slot { controller: Controller::Dma1, stream: 4, channel: 0 } },
        DmaRequest { peripheral: "I2C2", direction: Direction::Rx, slot: Slot { controller: Controller::Dma1, stream: 2, channel: 7 } },
        DmaRequest { peripheral: "I2C2", direction: Direction::Rx, slot: Slot { controller: Controller::Dma1, stream: 3, channel: 7 } },
        DmaRequest { peripheral: "I2C2", direction: Direction::Tx, slot: Slot { controller: Controller::Dma1, stream: 7, channel: 7 } },
        DmaRequest { peripheral: "ADC1", direction: Direction::Rx, slot: Slot { controller: Controller::Dma2, stream: 0, channel: 0 } },
        DmaRequest { peripheral: "ADC1", direction: Direction::Rx, slot: Slot { controller: Controller::Dma2, stream: 4, channel: 0 } },
        DmaRequest { peripheral: "SPI1", direction: Direction::Rx, slot: Slot { controller: Controller::Dma2, stream: 0, channel: 3 } },
        DmaRequest { peripheral: "SPI1", direction: Direction::Rx, slot: Slot { controller: Controller::Dma2, stream: 2, channel: 3 } },
        DmaRequest { peripheral: "SPI1", direction: Direction::Tx, slot: Slot { controller: Controller::Dma2, stream: 3, channel: 3 } },
        DmaRequest { peripheral: "SPI1", direction: Direction::Tx, slot: Slot { controller: Controller::Dma2, stream: 5, channel: 3 } },
        DmaRequest { peripheral: "USART1", direction: Direction::Rx, slot: Slot { controller: Controller::Dma2, stream: 2, channel: 4 } },
        DmaRequest { peripheral: "USART1", direction: Direction::Rx, slot: Slot { controller: Controller::Dma2, stream: 5, channel: 4 } },
        DmaRequest { peripheral: "USART1", direction: Direction::Tx, slot: Slot { controller: Controller::Dma2, stream: 7, channel: 4 } },
        DmaRequest { peripheral: "USART6", direction: Direction::Rx, slot: Slot { controller: Controller::Dma2, stream: 1, channel: 5 } },
        DmaRequest { peripheral: "USART6", direction: Direction::Rx, slot: Slot { controller: Controller::Dma2, stream: 2, channel: 5 } },
        DmaRequest { peripheral: "USART6", direction: Direction::Tx, slot: Slot { controller: Controller::Dma2, stream: 6, channel: 5 } },
        DmaRequest { peripheral: "USART6", direction: Direction::Tx, slot: Slot { controller: Controller::Dma2, stream: 7, channel: 5 } },
    ]
}

/// STM32F411RE request rows (RM0383 Table 27 = DMA1, Table 28 = DMA2); no UART4/5 or USART3, shared peripherals keep the F446 slots.
pub open spec fn f411re_requests() -> Seq<DmaRequest> {
    seq![
        DmaRequest { peripheral: "SPI3", direction: Direction::Rx, slot: Slot { controller: Controller::Dma1, stream: 0, channel: 0 } },
        DmaRequest { peripheral: "SPI3", direction: Direction::Rx, slot: Slot { controller: Controller::Dma1, stream: 2, channel: 0 } },
        DmaRequest { peripheral: "SPI3", direction: Direction::Tx, slot: Slot { controller: Controller::Dma1, stream: 5, channel: 0 } },
        DmaRequest { peripheral: "SPI3", direction: Direction::Tx, slot: Slot { controller: Controller::Dma1, stream: 7, channel: 0 } },
        DmaRequest { peripheral: "I2C1", direction: Direction::Rx, slot: Slot { controller: Controller::Dma1, stream: 0, channel: 1 } },
        DmaRequest { peripheral: "I2C1", direction: Direction::Rx, slot: Slot { controller: Controller::Dma1, stream: 5, channel: 1 } },
        DmaRequest { peripheral: "I2C1", direction: Direction::Tx, slot: Slot { controller: Controller::Dma1, stream: 6, channel: 1 } },
        DmaRequest { peripheral: "I2C1", direction: Direction::Tx, slot: Slot { controller: Controller::Dma1, stream: 7, channel: 1 } },
        DmaRequest { peripheral: "TIM4", direction: Direction::Rx, slot: Slot { controller: Controller::Dma1, stream: 0, channel: 2 } },
        DmaRequest { peripheral: "TIM4", direction: Direction::Tx, slot: Slot { controller: Controller::Dma1, stream: 6, channel: 2 } },
        DmaRequest { peripheral: "I2C3", direction: Direction::Rx, slot: Slot { controller: Controller::Dma1, stream: 1, channel: 3 } },
        DmaRequest { peripheral: "I2C3", direction: Direction::Rx, slot: Slot { controller: Controller::Dma1, stream: 2, channel: 3 } },
        DmaRequest { peripheral: "I2C3", direction: Direction::Tx, slot: Slot { controller: Controller::Dma1, stream: 4, channel: 3 } },
        DmaRequest { peripheral: "USART2", direction: Direction::Rx, slot: Slot { controller: Controller::Dma1, stream: 5, channel: 4 } },
        DmaRequest { peripheral: "USART2", direction: Direction::Tx, slot: Slot { controller: Controller::Dma1, stream: 6, channel: 4 } },
        DmaRequest { peripheral: "TIM2", direction: Direction::Rx, slot: Slot { controller: Controller::Dma1, stream: 5, channel: 3 } },
        DmaRequest { peripheral: "TIM2", direction: Direction::Tx, slot: Slot { controller: Controller::Dma1, stream: 6, channel: 3 } },
        DmaRequest { peripheral: "TIM3", direction: Direction::Rx, slot: Slot { controller: Controller::Dma1, stream: 4, channel: 5 } },
        DmaRequest { peripheral: "TIM3", direction: Direction::Tx, slot: Slot { controller: Controller::Dma1, stream: 5, channel: 5 } },
        DmaRequest { peripheral: "TIM5", direction: Direction::Rx, slot: Slot { controller: Controller::Dma1, stream: 0, channel: 6 } },
        DmaRequest { peripheral: "TIM5", direction: Direction::Tx, slot: Slot { controller: Controller::Dma1, stream: 1, channel: 6 } },
        DmaRequest { peripheral: "SPI2", direction: Direction::Rx, slot: Slot { controller: Controller::Dma1, stream: 3, channel: 0 } },
        DmaRequest { peripheral: "SPI2", direction: Direction::Tx, slot: Slot { controller: Controller::Dma1, stream: 4, channel: 0 } },
        DmaRequest { peripheral: "I2C2", direction: Direction::Rx, slot: Slot { controller: Controller::Dma1, stream: 2, channel: 7 } },
        DmaRequest { peripheral: "I2C2", direction: Direction::Rx, slot: Slot { controller: Controller::Dma1, stream: 3, channel: 7 } },
        DmaRequest { peripheral: "I2C2", direction: Direction::Tx, slot: Slot { controller: Controller::Dma1, stream: 7, channel: 7 } },
        DmaRequest { peripheral: "ADC1", direction: Direction::Rx, slot: Slot { controller: Controller::Dma2, stream: 0, channel: 0 } },
        DmaRequest { peripheral: "ADC1", direction: Direction::Rx, slot: Slot { controller: Controller::Dma2, stream: 4, channel: 0 } },
        DmaRequest { peripheral: "SPI1", direction: Direction::Rx, slot: Slot { controller: Controller::Dma2, stream: 0, channel: 3 } },
        DmaRequest { peripheral: "SPI1", direction: Direction::Rx, slot: Slot { controller: Controller::Dma2, stream: 2, channel: 3 } },
        DmaRequest { peripheral: "SPI1", direction: Direction::Tx, slot: Slot { controller: Controller::Dma2, stream: 3, channel: 3 } },
        DmaRequest { peripheral: "SPI1", direction: Direction::Tx, slot: Slot { controller: Controller::Dma2, stream: 5, channel: 3 } },
        DmaRequest { peripheral: "USART1", direction: Direction::Rx, slot: Slot { controller: Controller::Dma2, stream: 2, channel: 4 } },
        DmaRequest { peripheral: "USART1", direction: Direction::Rx, slot: Slot { controller: Controller::Dma2, stream: 5, channel: 4 } },
        DmaRequest { peripheral: "USART1", direction: Direction::Tx, slot: Slot { controller: Controller::Dma2, stream: 7, channel: 4 } },
        DmaRequest { peripheral: "USART6", direction: Direction::Rx, slot: Slot { controller: Controller::Dma2, stream: 1, channel: 5 } },
        DmaRequest { peripheral: "USART6", direction: Direction::Rx, slot: Slot { controller: Controller::Dma2, stream: 2, channel: 5 } },
        DmaRequest { peripheral: "USART6", direction: Direction::Tx, slot: Slot { controller: Controller::Dma2, stream: 6, channel: 5 } },
        DmaRequest { peripheral: "USART6", direction: Direction::Tx, slot: Slot { controller: Controller::Dma2, stream: 7, channel: 5 } },
    ]
}

fn f411re_request_slice() -> (r: &'static [DmaRequest])
    ensures
        r@ == f411re_requests(),
{
    &[
        DmaRequest { peripheral: "SPI3", direction: Direction::Rx, slot: Slot { controller: Controller::Dma1, stream: 0, channel: 0 } },
        DmaRequest { peripheral: "SPI3", direction: Direction::Rx, slot: Slot { controller: Controller::Dma1, stream: 2, channel: 0 } },
        DmaRequest { peripheral: "SPI3", direction: Direction::Tx, slot: Slot { controller: Controller::Dma1, stream: 5, channel: 0 } },
        DmaRequest { peripheral: "SPI3", direction: Direction::Tx, slot: Slot { controller: Controller::Dma1, stream: 7, channel: 0 } },
        DmaRequest { peripheral: "I2C1", direction: Direction::Rx, slot: Slot { controller: Controller::Dma1, stream: 0, channel: 1 } },
        DmaRequest { peripheral: "I2C1", direction: Direction::Rx, slot: Slot { controller: Controller::Dma1, stream: 5, channel: 1 } },
        DmaRequest { peripheral: "I2C1", direction: Direction::Tx, slot: Slot { controller: Controller::Dma1, stream: 6, channel: 1 } },
        DmaRequest { peripheral: "I2C1", direction: Direction::Tx, slot: Slot { controller: Controller::Dma1, stream: 7, channel: 1 } },
        DmaRequest { peripheral: "TIM4", direction: Direction::Rx, slot: Slot { controller: Controller::Dma1, stream: 0, channel: 2 } },
        DmaRequest { peripheral: "TIM4", direction: Direction::Tx, slot: Slot { controller: Controller::Dma1, stream: 6, channel: 2 } },
        DmaRequest { peripheral: "I2C3", direction: Direction::Rx, slot: Slot { controller: Controller::Dma1, stream: 1, channel: 3 } },
        DmaRequest { peripheral: "I2C3", direction: Direction::Rx, slot: Slot { controller: Controller::Dma1, stream: 2, channel: 3 } },
        DmaRequest { peripheral: "I2C3", direction: Direction::Tx, slot: Slot { controller: Controller::Dma1, stream: 4, channel: 3 } },
        DmaRequest { peripheral: "USART2", direction: Direction::Rx, slot: Slot { controller: Controller::Dma1, stream: 5, channel: 4 } },
        DmaRequest { peripheral: "USART2", direction: Direction::Tx, slot: Slot { controller: Controller::Dma1, stream: 6, channel: 4 } },
        DmaRequest { peripheral: "TIM2", direction: Direction::Rx, slot: Slot { controller: Controller::Dma1, stream: 5, channel: 3 } },
        DmaRequest { peripheral: "TIM2", direction: Direction::Tx, slot: Slot { controller: Controller::Dma1, stream: 6, channel: 3 } },
        DmaRequest { peripheral: "TIM3", direction: Direction::Rx, slot: Slot { controller: Controller::Dma1, stream: 4, channel: 5 } },
        DmaRequest { peripheral: "TIM3", direction: Direction::Tx, slot: Slot { controller: Controller::Dma1, stream: 5, channel: 5 } },
        DmaRequest { peripheral: "TIM5", direction: Direction::Rx, slot: Slot { controller: Controller::Dma1, stream: 0, channel: 6 } },
        DmaRequest { peripheral: "TIM5", direction: Direction::Tx, slot: Slot { controller: Controller::Dma1, stream: 1, channel: 6 } },
        DmaRequest { peripheral: "SPI2", direction: Direction::Rx, slot: Slot { controller: Controller::Dma1, stream: 3, channel: 0 } },
        DmaRequest { peripheral: "SPI2", direction: Direction::Tx, slot: Slot { controller: Controller::Dma1, stream: 4, channel: 0 } },
        DmaRequest { peripheral: "I2C2", direction: Direction::Rx, slot: Slot { controller: Controller::Dma1, stream: 2, channel: 7 } },
        DmaRequest { peripheral: "I2C2", direction: Direction::Rx, slot: Slot { controller: Controller::Dma1, stream: 3, channel: 7 } },
        DmaRequest { peripheral: "I2C2", direction: Direction::Tx, slot: Slot { controller: Controller::Dma1, stream: 7, channel: 7 } },
        DmaRequest { peripheral: "ADC1", direction: Direction::Rx, slot: Slot { controller: Controller::Dma2, stream: 0, channel: 0 } },
        DmaRequest { peripheral: "ADC1", direction: Direction::Rx, slot: Slot { controller: Controller::Dma2, stream: 4, channel: 0 } },
        DmaRequest { peripheral: "SPI1", direction: Direction::Rx, slot: Slot { controller: Controller::Dma2, stream: 0, channel: 3 } },
        DmaRequest { peripheral: "SPI1", direction: Direction::Rx, slot: Slot { controller: Controller::Dma2, stream: 2, channel: 3 } },
        DmaRequest { peripheral: "SPI1", direction: Direction::Tx, slot: Slot { controller: Controller::Dma2, stream: 3, channel: 3 } },
        DmaRequest { peripheral: "SPI1", direction: Direction::Tx, slot: Slot { controller: Controller::Dma2, stream: 5, channel: 3 } },
        DmaRequest { peripheral: "USART1", direction: Direction::Rx, slot: Slot { controller: Controller::Dma2, stream: 2, channel: 4 } },
        DmaRequest { peripheral: "USART1", direction: Direction::Rx, slot: Slot { controller: Controller::Dma2, stream: 5, channel: 4 } },
        DmaRequest { peripheral: "USART1", direction: Direction::Tx, slot: Slot { controller: Controller::Dma2, stream: 7, channel: 4 } },
        DmaRequest { peripheral: "USART6", direction: Direction::Rx, slot: Slot { controller: Controller::Dma2, stream: 1, channel: 5 } },
        DmaRequest { peripheral: "USART6", direction: Direction::Rx, slot: Slot { controller: Controller::Dma2, stream: 2, channel: 5 } },
        DmaRequest { peripheral: "USART6", direction: Direction::Tx, slot: Slot { controller: Controller::Dma2, stream: 6, channel: 5 } },
        DmaRequest { peripheral: "USART6", direction: Direction::Tx, slot: Slot { controller: Controller::Dma2, stream: 7, channel: 5 } },
    ]
}


/// The slots that serve `(peripheral, direction)` are the table's rows
/// filtered by peripheral and direction, mapped to their slots, in table
/// order (empty when the family does not model the request).
pub proof fn lemma_candidates_are_filtered_rows(rows: Seq<DmaRequest>, peripheral: Seq<char>, direction: Direction)
    ensures
        candidate_slots(rows, peripheral, direction) == rows.filter(
            |r: DmaRequest| serves(r, peripheral, direction),
        ).map_values(|r: DmaRequest| r.slot),
    decreases rows.len(),
{
    reveal_with_fuel(Seq::<_>::filter, 1);
    if rows.len() > 0 {
        lemma_candidates_are_filtered_rows(rows.drop_last(), peripheral, direction);
        let f = |r: DmaRequest| serves(r, peripheral, direction);
        let g = |r: DmaRequest| r.slot;
        assert(rows.filter(f).map_values(g) =~= if f(rows.last()) {
            rows.drop_last().filter(f).map_values(g).push(rows.last().slot)
        } else {
            rows.drop_last().filter(f).map_values(g)
        });
    } else {
        assert(rows.filter(|r: DmaRequest| serves(r, peripheral, direction)).map_values(|r: DmaRequest| r.slot) =~= Seq::<Slot>::empty());
    }
}

proof fn lemma_f446re_slot(i: int)
    requires
        0 <= i < f446re_requests().len(),
    ensures
        f446re_requests()[i].slot.stream <= 7 && f446re_requests()[i].slot.channel <= 7,
{
    if i == 0 {
    } else if i == 1 {
    } else if i == 2 {
    } else if i == 3 {
    } else if i == 4 {
    } else if i == 5 {
    } else if i == 6 {
    } else if i == 7 {
    } else if i == 8 {
    } else if i == 9 {
    } else if i == 10 {
    } else if i == 11 {
    } else if i == 12 {
    } else if i == 13 {
    } else if i == 14 {
    } else if i == 15 {
    } else if i == 16 {
    } else if i == 17 {
    } else if i == 18 {
    } else if i == 19 {
    } else if i == 20 {
    } else if i == 21 {
    } else if i == 22 {
    } else if i == 23 {
    } else if i == 24 {
    } else if i == 25 {
    } else if i == 26 {
    } else if i == 27 {
    } else if i == 28 {
    } else if i == 29 {
    } else if i == 30 {
    } else if i == 31 {
    } else if i == 32 {
    } else if i == 33 {
    } else if i == 34 {
    } else if i == 35 {
    } else if i == 36 {
    } else if i == 37 {
    } else if i == 38 {
    } else if i == 39 {
    } else if i == 40 {
    } else if i == 41 {
    } else if i == 42 {
    } else if i == 43 {
    } else if i == 44 {
    }
}

proof fn lemma_f411re_slot(i: int)
    requires
        0 <= i < f411re_requests().len(),
    ensures
        f411re_requests()[i].slot.stream <= 7 && f411re_requests()[i].slot.channel <= 7,
{
    if i == 0 {
    } else if i == 1 {
    } else if i == 2 {
    } else if i == 3 {
    } else if i == 4 {
    } else if i == 5 {
    } else if i == 6 {
    } else if i == 7 {
    } else if i == 8 {
    } else if i == 9 {
    } else if i == 10 {
    } else if i == 11 {
    } else if i == 12 {
    } else if i == 13 {
    } else if i == 14 {
    } else if i == 15 {
    } else if i == 16 {
    } else if i == 17 {
    } else if i == 18 {
    } else if i == 19 {
    } else if i == 20 {
    } else if i == 21 {
    } else if i == 22 {
    } else if i == 23 {
    } else if i == 24 {
    } else if i == 25 {
    } else if i == 26 {
    } else if i == 27 {
    } else if i == 28 {
    } else if i == 29 {
    } else if i == 30 {
    } else if i == 31 {
    } else if i == 32 {
    } else if i == 33 {
    } else if i == 34 {
    } else if i == 35 {
    } else if i == 36 {
    } else if i == 37 {
    } else if i == 38 {
    }
}

/// In both families' tables every request's stream and channel are at most 7
/// (eight streams of eight channels per controller).
pub proof fn lemma_dma_slots_in_range(i: int)
    ensures
        0 <= i < f446re_requests().len() ==> f446re_requests()[i].slot.stream <= 7 && f446re_requests()[i].slot.channel <= 7,
        0 <= i < f411re_requests().len() ==> f411re_requests()[i].slot.stream <= 7 && f411re_requests()[i].slot.channel <= 7,
{
    if 0 <= i < f446re_requests().len() {
        lemma_f446re_slot(i);
    }
    if 0 <= i < f411re_requests().len() {
        lemma_f411re_slot(i);
    }
}

} // verus!
