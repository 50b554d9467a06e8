//! The IRQ/NVIC verifier: four checks against the family's vector model.
//!
//! 1. Unhandled IRQ: `irq = true` on a peripheral with no modelled vector.
//! 2. EXTI collision: `[[exti]]` pins of different ports on one EXTI line.
//! 3. DMA/IRQ priority inversion: a `dma_priority` less urgent
//!    (numerically larger) than the same peripheral's `irq_priority`.
//! 4. EXTI/IRQ priority inversion: an `[[exti]]` priority less urgent than
//!    the `irq_priority` of an IRQ-enabled peripheral using the same pin.

use vstd::prelude::*;
use crate::compiler::config::{integer_spec, lookup_value, pin_str_spec, Config, ConfigValue, ExtiPin};
use crate::compiler::model::{kind_roles, peripheral_name, peripheral_name_spec, roles_for, roles_model, strip_trailing_digits};
use crate::compiler::solver::{views, Conflict, ConflictView, Severity};
use crate::db::irq::{IrqMap, PeripheralIrq};
use crate::db::{parse_pin_spec, pin_name, Pin};
use crate::text::{dec_digits, i64_to_string, int_digits, owned, str_debug, str_debug_spec, u64_to_string};

verus! {

/// An IRQ conflict as plain values.
pub open spec fn irq_conflict(node: Seq<char>, reason: Seq<char>, severity: Severity) -> ConflictView {
    ConflictView::IrqConflict { node, reason, severity }
}

/// Whether a table sets `irq = true`.
pub open spec fn irq_enabled(table: Seq<(String, ConfigValue)>) -> bool {
    lookup_value(table, "irq"@) == Some(ConfigValue::Boolean(true))
}

/// Whether the model has a vector row for `peripheral`.
pub open spec fn map_has(rows: Seq<PeripheralIrq>, peripheral: Seq<char>) -> bool {
    exists|i: int| 0 <= i < rows.len() && (#[trigger] rows[i]).peripheral@ == peripheral
}

/// Check 1 over the peripheral tables, in order.
pub open spec fn unhandled_spec(rows: Seq<PeripheralIrq>, entries: Seq<(String, crate::compiler::config::Peripheral)>) -> Seq<ConflictView>
    decreases entries.len(),
{
    if entries.len() == 0 {
        Seq::empty()
    } else {
        let e = entries.last();
        let p = peripheral_name_spec(e.0@);
        unhandled_spec(rows, entries.drop_last()) + if irq_enabled(e.1.0@) && !map_has(rows, p) {
            seq![irq_conflict(p, p + " has `irq = true` but no NVIC vector is modeled for it on this family"@, Severity::Error)]
        } else {
            Seq::empty()
        }
    }
}

/// The invalid-pin reports of check 2, in declaration order.
pub open spec fn invalid_exti_spec(entries: Seq<ExtiPin>) -> Seq<ConflictView>
    decreases entries.len(),
{
    if entries.len() == 0 {
        Seq::empty()
    } else {
        let e = entries.last();
        invalid_exti_spec(entries.drop_last()) + if parse_pin_spec(e.pin@) is None {
            seq![irq_conflict(e.pin@, "invalid EXTI pin "@ + str_debug_spec(e.pin@) + ": not a valid pin name"@, Severity::Error)]
        } else {
            Seq::empty()
        }
    }
}

/// The distinct valid `[[exti]]` pins on EXTI line `line`, first-seen order.
pub open spec fn line_pins(entries: Seq<ExtiPin>, line: u8) -> Seq<Pin>
    decreases entries.len(),
{
    if entries.len() == 0 {
        Seq::empty()
    } else {
        let acc = line_pins(entries.drop_last(), line);
        match parse_pin_spec(entries.last().pin@) {
            Some(p) => if p.number == line && !acc.contains(p) {
                acc.push(p)
            } else {
                acc
            },
            None => acc,
        }
    }
}

/// The pin names joined by `" and "`.
pub open spec fn join_pins(ps: Seq<Pin>) -> Seq<char>
    decreases ps.len(),
{
    if ps.len() == 0 {
        Seq::empty()
    } else if ps.len() == 1 {
        pin_name(ps[0])
    } else {
        join_pins(ps.drop_last()) + " and "@ + pin_name(ps.last())
    }
}

/// The collision report of EXTI line `line`, when more than one pin claims it.
pub open spec fn line_collision(entries: Seq<ExtiPin>, line: u8) -> Seq<ConflictView> {
    let ps = line_pins(entries, line);
    if ps.len() > 1 {
        seq![irq_conflict(pin_name(ps[0]), "EXTI"@ + dec_digits(line as nat) + " is shared by "@ + join_pins(ps)
            + " but only one can trigger it"@, Severity::Error)]
    } else {
        Seq::empty()
    }
}

/// The collision reports of the first `n` EXTI lines, in line order.
pub open spec fn line_collisions_upto(entries: Seq<ExtiPin>, n: nat) -> Seq<ConflictView>
    decreases n,
{
    if n == 0 {
        Seq::empty()
    } else {
        line_collisions_upto(entries, (n - 1) as nat) + line_collision(entries, (n - 1) as u8)
    }
}

/// Check 3 over the peripheral tables, in order.
pub open spec fn inversions_spec(entries: Seq<(String, crate::compiler::config::Peripheral)>) -> Seq<ConflictView>
    decreases entries.len(),
{
    if entries.len() == 0 {
        Seq::empty()
    } else {
        let e = entries.last();
        let p = peripheral_name_spec(e.0@);
        inversions_spec(entries.drop_last()) + match (integer_spec(e.1.0@, "dma_priority"@), integer_spec(e.1.0@, "irq_priority"@)) {
            (Some(d), Some(i)) => if d > i {
                seq![irq_conflict(p, p + ": DMA priority "@ + int_digits(d as int) + " is less urgent than its IRQ priority "@
                    + int_digits(i as int) + " (priority inversion)"@, Severity::Warning)]
            } else {
                Seq::empty()
            },
            _ => Seq::empty(),
        }
    }
}

/// Whether `role`'s value in a table names pin `pin`.
pub open spec fn role_names_pin(table: Seq<(String, ConfigValue)>, role: (Seq<char>, Seq<char>, bool), pin: Pin) -> bool {
    match pin_str_spec(table, role.0) {
        Some(v) => parse_pin_spec(v) == Some(pin),
        None => false,
    }
}

/// Whether one of `roles` of a table names pin `pin`.
pub open spec fn shares_pin(table: Seq<(String, ConfigValue)>, roles: Seq<(Seq<char>, Seq<char>, bool)>, pin: Pin) -> bool {
    exists|i: int| 0 <= i < roles.len() && role_names_pin(table, #[trigger] roles[i], pin)
}

/// The check-4 report for one `[[exti]]` entry and one peripheral table.
pub open spec fn exti_inversion_one(e: ExtiPin, entry: (String, crate::compiler::config::Peripheral)) -> Seq<ConflictView> {
    let p = peripheral_name_spec(entry.0@);
    let t = entry.1.0@;
    match (e.priority, parse_pin_spec(e.pin@), integer_spec(t, "irq_priority"@), kind_roles(strip_trailing_digits(entry.0@))) {
        (Some(ep), Some(pin), Some(ip), Some(roles)) => if irq_enabled(t) && shares_pin(t, roles, pin) && (ep as int) > ip {
            seq![irq_conflict(p, "EXTI priority "@ + dec_digits(ep as nat) + " on "@ + e.pin@ + " is less urgent than "@ + p
                + "'s IRQ priority "@ + int_digits(ip as int) + " on the same pin (priority inversion)"@, Severity::Warning)]
        } else {
            Seq::empty()
        },
        _ => Seq::empty(),
    }
}

/// Check 4 for one `[[exti]]` entry, over the peripheral tables in order.
pub open spec fn exti_inversions_one(e: ExtiPin, entries: Seq<(String, crate::compiler::config::Peripheral)>) -> Seq<ConflictView>
    decreases entries.len(),
{
    if entries.len() == 0 {
        Seq::empty()
    } else {
        exti_inversions_one(e, entries.drop_last()) + exti_inversion_one(e, entries.last())
    }
}

/// Check 4 over the `[[exti]]` entries, in declaration order.
pub open spec fn exti_inversions_spec(exti: Seq<ExtiPin>, entries: Seq<(String, crate::compiler::config::Peripheral)>) -> Seq<ConflictView>
    decreases exti.len(),
{
    if exti.len() == 0 {
        Seq::empty()
    } else {
        exti_inversions_spec(exti.drop_last(), entries) + exti_inversions_one(exti.last(), entries)
    }
}

/// Everything IRQ validation reports, checks 1 to 4 in that order.
pub open spec fn irq_conflicts_spec(config: Config, rows: Seq<PeripheralIrq>) -> Seq<ConflictView> {
    unhandled_spec(rows, config.peripherals@) + (invalid_exti_spec(config.exti@) + line_collisions_upto(config.exti@, 16))
        + inversions_spec(config.peripherals@) + exti_inversions_spec(config.exti@, config.peripherals@)
}

fn push_irq(out: &mut Vec<Conflict>, node: String, reason: String, severity: Severity)
    ensures
        views(final(out)@) == views(old(out)@).push(irq_conflict(node@, reason@, severity)),
{
    let ghost before = views(out@);
    out.push(Conflict::IrqConflict { node, reason, severity });
    assert(views(out@) =~= before.push(irq_conflict(node@, reason@, severity)));
}

fn table_irq_enabled(table: &crate::compiler::config::Peripheral) -> (r: bool)
    ensures
        r == irq_enabled(table.0@),
{
    match table.get("irq") {
        Some(ConfigValue::Boolean(b)) => *b,
        _ => false,
    }
}

fn unhandled_irqs(out: &mut Vec<Conflict>, config: &Config, map: &IrqMap)
    ensures
        views(final(out)@) == views(old(out)@) + unhandled_spec(map@, config.peripherals@),
{
    let ghost start = views(out@);
    let mut i: usize = 0;
    assert(start =~= start + unhandled_spec(map@, config.peripherals@.take(0)));
    while i < config.peripherals.len()
        invariant
            0 <= i <= config.peripherals@.len(),
            views(out@) == start + unhandled_spec(map@, config.peripherals@.take(i as int)),
        decreases config.peripherals@.len() - i,
    {
        let ghost ps = config.peripherals@;
        assert(ps.take(i + 1).drop_last() =~= ps.take(i as int));
        assert(ps.take(i + 1).last() == ps[i as int]);
        let entry = &config.peripherals[i];
        let ghost before = views(out@);
        if table_irq_enabled(&entry.1) {
            let p = peripheral_name(entry.0.as_str());
            if !map.has_peripheral(p.as_str()) {
                let mut reason = owned(p.as_str());
                reason.append(" has `irq = true` but no NVIC vector is modeled for it on this family");
                push_irq(out, p, reason, Severity::Error);
            }
        }
        assert(views(out@) =~= start + unhandled_spec(map@, ps.take(i + 1)));
        i += 1;
    }
    assert(config.peripherals@.take(config.peripherals@.len() as int) =~= config.peripherals@);
}

fn join_pin_names(ps: &Vec<Pin>) -> (s: String)
    ensures
        s@ == join_pins(ps@),
{
    let mut s = String::new();
    let mut i: usize = 0;
    while i < ps.len()
        invariant
            0 <= i <= ps@.len(),
            s@ == join_pins(ps@.take(i as int)),
        decreases ps@.len() - i,
    {
        assert(ps@.take(i + 1).drop_last() =~= ps@.take(i as int));
        if i > 0 {
            s.append(" and ");
        } else {
            assert(ps@.take(0) =~= Seq::<Pin>::empty());
            assert(s@ =~= Seq::<char>::empty());
        }
        s.append(ps[i].to_string().as_str());
        i += 1;
        assert(s@ =~= join_pins(ps@.take(i as int)));
    }
    assert(ps@.take(ps@.len() as int) =~= ps@);
    s
}

fn exti_collisions(out: &mut Vec<Conflict>, config: &Config)
    ensures
        views(final(out)@) == views(old(out)@) + (invalid_exti_spec(config.exti@) + line_collisions_upto(config.exti@, 16)),
{
    let ghost start = views(out@);
    let ghost ex = config.exti@;
    let mut i: usize = 0;
    assert(start =~= start + invalid_exti_spec(ex.take(0)));
    while i < config.exti.len()
        invariant
            ex == config.exti@,
            0 <= i <= ex.len(),
            views(out@) == start + invalid_exti_spec(ex.take(i as int)),
        decreases ex.len() - i,
    {
        assert(ex.take(i + 1).drop_last() =~= ex.take(i as int));
        assert(ex.take(i + 1).last() == ex[i as int]);
        let e = &config.exti[i];
        if Pin::parse(e.pin.as_str()).is_err() {
            let mut reason = String::from_str("invalid EXTI pin ");
            reason.append(str_debug(e.pin.as_str()).as_str());
            reason.append(": not a valid pin name");
            push_irq(out, owned(e.pin.as_str()), reason, Severity::Error);
        }
        assert(views(out@) =~= start + invalid_exti_spec(ex.take(i + 1)));
        i += 1;
    }
    assert(ex.take(ex.len() as int) =~= ex);
    let ghost mid = views(out@);
    let mut line: u8 = 0;
    assert(mid =~= mid + line_collisions_upto(ex, 0));
    while line < 16
        invariant
            ex == config.exti@,
            line <= 16,
            views(out@) == mid + line_collisions_upto(ex, line as nat),
        decreases 16 - line,
    {
        let mut pins: Vec<Pin> = Vec::new();
        let mut j: usize = 0;
        while j < config.exti.len()
            invariant
                ex == config.exti@,
                0 <= j <= ex.len(),
                pins@ == line_pins(ex.take(j as int), line),
            decreases ex.len() - j,
        {
            assert(ex.take(j + 1).drop_last() =~= ex.take(j as int));
            assert(ex.take(j + 1).last() == ex[j as int]);
            match Pin::parse(config.exti[j].pin.as_str()) {
                Ok(p) => {
                    if p.number == line {
                        let mut seen = false;
                        let mut t: usize = 0;
                        while t < pins.len()
                            invariant
                                0 <= t <= pins@.len(),
                                seen == exists|u: int| 0 <= u < t && pins@[u] == p,
                            decreases pins@.len() - t,
                        {
                            if pins[t] == p {
                                seen = true;
                            }
                            t += 1;
                        }
                        if !seen {
                            pins.push(p);
                        } else {
                            proof {
                                let u = choose|u: int| 0 <= u < pins@.len() && pins@[u] == p;
                                assert(pins@.contains(p));
                            }
                        }
                    }
                },
                Err(_) => {},
            }
            j += 1;
        }
        assert(ex.take(ex.len() as int) =~= ex);
        let ghost before = views(out@);
        if pins.len() > 1 {
            let node = pins[0].to_string();
            let mut reason = String::from_str("EXTI");
            reason.append(u64_to_string(line as u64).as_str());
            reason.append(" is shared by ");
            reason.append(join_pin_names(&pins).as_str());
            reason.append(" but only one can trigger it");
            push_irq(out, node, reason, Severity::Error);
        }
        assert(views(out@) =~= mid + line_collisions_upto(ex, (line + 1) as nat));
        line += 1;
    }
}

fn priority_inversions(out: &mut Vec<Conflict>, config: &Config)
    ensures
        views(final(out)@) == views(old(out)@) + inversions_spec(config.peripherals@),
{
    let ghost start = views(out@);
    let mut i: usize = 0;
    assert(start =~= start + inversions_spec(config.peripherals@.take(0)));
    while i < config.peripherals.len()
        invariant
            0 <= i <= config.peripherals@.len(),
            views(out@) == start + inversions_spec(config.peripherals@.take(i as int)),
        decreases config.peripherals@.len() - i,
    {
        let ghost ps = config.peripherals@;
        assert(ps.take(i + 1).drop_last() =~= ps.take(i as int));
        assert(ps.take(i + 1).last() == ps[i as int]);
        let entry = &config.peripherals[i];
        match (entry.1.integer("dma_priority"), entry.1.integer("irq_priority")) {
            (Some(d), Some(ip)) => {
                if d > ip {
                    let p = peripheral_name(entry.0.as_str());
                    let mut reason = owned(p.as_str());
                    reason.append(": DMA priority ");
                    reason.append(i64_to_string(d).as_str());
                    reason.append(" is less urgent than its IRQ priority ");
                    reason.append(i64_to_string(ip).as_str());
                    reason.append(" (priority inversion)");
                    push_irq(out, p, reason, Severity::Warning);
                }
            },
            _ => {},
        }
        assert(views(out@) =~= start + inversions_spec(ps.take(i + 1)));
        i += 1;
    }
    assert(config.peripherals@.take(config.peripherals@.len() as int) =~= config.peripherals@);
}

fn table_shares_pin(table: &crate::compiler::config::Peripheral, roles: &[crate::compiler::model::Role], pin: Pin) -> (r: bool)
    ensures
        r == shares_pin(table.0@, roles_model(roles@), pin),
{
    let ghost rm = roles_model(roles@);
    let mut i: usize = 0;
    while i < roles.len()
        invariant
            rm == roles_model(roles@),
            0 <= i <= roles@.len(),
            forall|j: int| 0 <= j < i ==> !role_names_pin(table.0@, #[trigger] rm[j], pin),
        decreases roles@.len() - i,
    {
        assert(rm[i as int] == crate::compiler::model::role_model(roles@[i as int]));
        match table.pin_str(roles[i].key) {
            Some(v) => {
                match Pin::parse(v) {
                    Ok(p) => {
                        if p == pin {
                            assert(role_names_pin(table.0@, rm[i as int], pin));
                            return true;
                        }
                    },
                    Err(_) => {},
                }
            },
            None => {},
        }
        i += 1;
    }
    false
}

fn exti_inversions(out: &mut Vec<Conflict>, config: &Config)
    ensures
        views(final(out)@) == views(old(out)@) + exti_inversions_spec(config.exti@, config.peripherals@),
{
    let ghost start = views(out@);
    let ghost ex = config.exti@;
    let ghost ps = config.peripherals@;
    let mut i: usize = 0;
    assert(start =~= start + exti_inversions_spec(ex.take(0), ps));
    while i < config.exti.len()
        invariant
            ex == config.exti@,
            ps == config.peripherals@,
            0 <= i <= ex.len(),
            views(out@) == start + exti_inversions_spec(ex.take(i as int), ps),
        decreases ex.len() - i,
    {
        assert(ex.take(i + 1).drop_last() =~= ex.take(i as int));
        assert(ex.take(i + 1).last() == ex[i as int]);
        let e = &config.exti[i];
        let ghost mid = views(out@);
        let mut j: usize = 0;
        assert(mid =~= mid + exti_inversions_one(*e, ps.take(0)));
        while j < config.peripherals.len()
            invariant
                ps == config.peripherals@,
                0 <= j <= ps.len(),
                views(out@) == mid + exti_inversions_one(*e, ps.take(j as int)),
            decreases ps.len() - j,
        {
            assert(ps.take(j + 1).drop_last() =~= ps.take(j as int));
            assert(ps.take(j + 1).last() == ps[j as int]);
            let entry = &config.peripherals[j];
            let ghost before = views(out@);
            match (e.priority, Pin::parse(e.pin.as_str()), entry.1.integer("irq_priority"), roles_for(entry.0.as_str())) {
                (Some(ep), Ok(pin), Some(ip), Some(roles)) => {
                    if table_irq_enabled(&entry.1) && table_shares_pin(&entry.1, roles, pin) && (ep as i64) > ip {
                        let p = peripheral_name(entry.0.as_str());
                        let mut reason = String::from_str("EXTI priority ");
                        reason.append(u64_to_string(ep as u64).as_str());
                        reason.append(" on ");
                        reason.append(e.pin.as_str());
                        reason.append(" is less urgent than ");
                        reason.append(p.as_str());
                        reason.append("'s IRQ priority ");
                        reason.append(i64_to_string(ip).as_str());
                        reason.append(" on the same pin (priority inversion)");
                        push_irq(out, p, reason, Severity::Warning);
                    }
                },
                _ => {},
            }
            assert(views(out@) =~= mid + exti_inversions_one(*e, ps.take(j + 1)));
            j += 1;
        }
        assert(ps.take(ps.len() as int) =~= ps);
        assert(views(out@) =~= start + exti_inversions_spec(ex.take(i + 1), ps));
        i += 1;
    }
    assert(ex.take(ex.len() as int) =~= ex);
}

/// Validate the configured peripherals' IRQ and EXTI setup against the
/// family model: unhandled IRQs, then EXTI line collisions (invalid EXTI
/// pins first), then DMA/IRQ priority inversions, then EXTI/IRQ priority
/// inversions.
pub fn validate(config: &Config, map: &IrqMap) -> (out: Vec<Conflict>)
    ensures
        views(out@) == irq_conflicts_spec(*config, map@),
{
    let mut out: Vec<Conflict> = Vec::new();
    assert(views(out@) =~= Seq::<ConflictView>::empty());
    unhandled_irqs(&mut out, config, map);
    exti_collisions(&mut out, config);
    priority_inversions(&mut out, config);
    exti_inversions(&mut out, config);
    assert(views(out@) =~= irq_conflicts_spec(*config, map@));
    out
}

} // verus!
