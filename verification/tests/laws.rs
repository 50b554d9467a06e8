use nucleus::compiler::model::peripheral_bus;
use nucleus::db::clock::{ClockTree, Oscillator};
use nucleus::db::dma::{Controller, DmaMap, Direction, Slot};
use nucleus::db::irq::IrqMap;

#[test]
fn the_two_bus_tables_agree_on_examples() {
    let tree = ClockTree::f446re();
    for p in ["SPI1", "USART2", "I2C1", "DCMI", "MADEUP", "TIM10", "TIM1"] {
        let model = peripheral_bus(p).map(|b| b.name());
        let table = tree.peripheral_bus(p).map(|b| b.name());
        assert_eq!(model, table, "{p}");
    }
    assert_eq!(peripheral_bus("SPI1").map(|b| b.name()), Some("APB2"));
    assert_eq!(peripheral_bus("MADEUP").map(|b| b.name()), None);
}

#[test]
fn removing_an_oscillator_keeps_the_others() {
    let base = ClockTree::f446re();
    let t = ClockTree::without_oscillator(base, Oscillator::Hse);
    assert!(t.oscillator(Oscillator::Hse).is_none());
    for o in [Oscillator::Hsi, Oscillator::Lsi, Oscillator::Lse] {
        assert_eq!(t.oscillator(o), base.oscillator(o));
    }
    assert_eq!(t.oscillators().len() + 1, base.oscillators().len());
}

#[test]
fn dma_candidates_are_the_matching_rows_in_table_order() {
    let m = DmaMap::f446re();
    let expected: Vec<Slot> = m
        .requests()
        .iter()
        .filter(|r| r.peripheral == "SPI1" && r.direction == Direction::Rx)
        .map(|r| r.slot)
        .collect();
    assert_eq!(m.candidates("SPI1", Direction::Rx), expected);
    assert_eq!(
        m.candidates("SPI1", Direction::Rx),
        vec![Slot::new(Controller::Dma2, 0, 3), Slot::new(Controller::Dma2, 2, 3)]
    );
    assert!(m.candidates("NOPE", Direction::Tx).is_empty());
}

#[test]
fn every_dma_slot_is_in_range() {
    for m in [DmaMap::f446re(), DmaMap::f411re()] {
        for r in m.requests() {
            assert!(r.slot.stream <= 7 && r.slot.channel <= 7);
        }
    }
}

#[test]
fn irq_modeled_exactly_when_vectors_exist() {
    for m in [IrqMap::f446re(), IrqMap::f411re()] {
        for p in ["USART1", "USART3", "UART4", "UART5", "SPI1", "NOPE"] {
            assert_eq!(m.has_peripheral(p), !m.vectors(p).is_empty(), "{p}");
        }
    }
    assert!(IrqMap::f446re().has_peripheral("USART3"));
    assert!(!IrqMap::f411re().has_peripheral("UART5"));
}
