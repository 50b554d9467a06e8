//! The hardware constraint solver's vocabulary: conflicts, their severity and
//! their rendered messages.

use vstd::prelude::*;
use crate::compiler::config::{pin_str_spec, Config, Peripheral};
use crate::compiler::model::{
    bus_name, kind_roles, peripheral_bus, peripheral_bus_spec, peripheral_name, peripheral_name_spec, roles_for,
    roles_model, strip_trailing_digits, Bus,
};
use crate::db::{carries, parse_pin_spec, pin_name, AfMapping, Database, Pin, Port};
use crate::text::{
    dec_digits, lemma_seq_lt_irreflexive, lemma_seq_lt_total, lemma_seq_lt_transitive, owned, seq_lt,
    str_debug, str_debug_spec, str_lt, str_eq, u64_to_string,
};

verus! {

/// The severity of a [`Conflict`].
#[derive(Debug, Clone, Copy, PartialEq, Eq, Structural)]
pub enum Severity {
    Error,
    Warning,
}

/// A `(peripheral, signal)` pair identifying one use of a pin.
#[derive(Debug, Clone, PartialEq, Eq, PartialOrd, Ord)]
pub struct SignalRef {
    pub peripheral: String,
    pub signal: String,
}

/// `PERIPHERAL_SIGNAL`, e.g. `SPI1_SCK`.
pub open spec fn signal_ref_text(r: SignalRef) -> Seq<char> {
    r.peripheral@ + "_"@ + r.signal@
}

impl SignalRef {
    /// The rendered form, `PERIPHERAL_SIGNAL`.
    pub fn to_string(&self) -> (s: String)
        ensures
            s@ == signal_ref_text(*self),
    {
        let mut s = self.peripheral.clone();
        s.append("_");
        s.append(self.signal.as_str());
        s
    }
}

/// The rendered signal references joined by `" and "`.
pub open spec fn join_and(rs: Seq<SignalRef>) -> Seq<char>
    decreases rs.len(),
{
    if rs.len() == 0 {
        Seq::empty()
    } else if rs.len() == 1 {
        signal_ref_text(rs[0])
    } else {
        join_and(rs.drop_last()) + " and "@ + signal_ref_text(rs.last())
    }
}

/// A single resolved conflict.
#[derive(Debug, Clone, PartialEq, Eq)]
pub enum Conflict {
    /// Two signals assigned to the same physical pin; the users are sorted.
    PinCollision { pin: Pin, users: Vec<SignalRef> },
    /// A pin that does not expose the requested peripheral signal on this MCU.
    AfMismatch { pin: Pin, peripheral: String, signal: String },
    /// A pin role whose string value is not a valid pin name.
    InvalidPin { peripheral: String, key: String, value: String },
    /// A required pin role left unset.
    MissingPin { peripheral: String, key: String, signal: String },
    /// A peripheral configured while its bus clock domain is disabled.
    ClockDomainDisabled { peripheral: String, bus: Bus },
    /// A peripheral instance that does not exist on the selected MCU family.
    PeripheralUnavailable { peripheral: String, family: String },
    /// A clock-tree constraint violation at `node` (`"SYSCLK"`, `"AHB"`,
    /// `"APB1"`, `"APB2"`, `"PLL"` or a peripheral instance name).
    ClockConstraint { node: String, reason: String },
    /// Two peripherals contending for the same DMA stream, with an optional
    /// `(peripheral, slot label)` suggestion of a free alternative.
    DmaCollision {
        first: String,
        second: String,
        controller: String,
        stream: u8,
        suggestion: Option<(String, String)>,
    },
    /// An IRQ/NVIC verification failure, with its own severity.
    IrqConflict { node: String, reason: String, severity: Severity },
    /// The auto-router found no valid pin for some role.
    Unroutable { node: String, reason: String },
    /// A `[[test]]` block that cannot run.
    InvalidTest { node: String, reason: String },
}

/// The severity of a conflict: only IRQ conflicts carry their own; every
/// other conflict is an error.
pub open spec fn severity_spec(c: Conflict) -> Severity {
    match c {
        Conflict::IrqConflict { severity, .. } => severity,
        _ => Severity::Error,
    }
}

/// The rendered message of a conflict.
pub open spec fn conflict_message(c: Conflict) -> Seq<char> {
    match c {
        Conflict::PinCollision { pin, users } => "pin collision on "@ + pin_name(pin) + ": assigned to "@ + join_and(users@),
        Conflict::AfMismatch { pin, peripheral, signal } => "AF mismatch: "@ + pin_name(pin)
            + " has no alternate function for "@ + peripheral@ + "_"@ + signal@ + " on this MCU"@,
        Conflict::InvalidPin { peripheral, key, value } => "invalid pin: "@ + peripheral@ + "."@ + key@ + " = "@
            + str_debug_spec(value@) + " is not a valid pin name"@,
        Conflict::MissingPin { peripheral, key, signal } => "missing required pin: "@ + peripheral@ + " needs a "@
            + key@ + " pin ("@ + peripheral@ + "_"@ + signal@ + ")"@,
        Conflict::ClockDomainDisabled { peripheral, bus } => "clock domain disabled: "@ + peripheral@ + " is on "@
            + bus_name(bus) + " but [clocks]."@ + bus_name(bus).map_values(|c: char| crate::text::ascii_lower(c))
            + " = false"@,
        Conflict::PeripheralUnavailable { peripheral, family } => "peripheral "@ + peripheral@
            + " is not available on "@ + family@,
        Conflict::ClockConstraint { node, reason } => "clock constraint ["@ + node@ + "]: "@ + reason@,
        Conflict::DmaCollision { first, second, controller, stream, suggestion } => "DMA collision: "@ + first@
            + " and "@ + second@ + " both need "@ + controller@ + " stream "@ + dec_digits(stream as nat)
            + match suggestion {
            Some(sg) => " (move "@ + sg.0@ + " to "@ + sg.1@ + ")"@,
            None => Seq::empty(),
        },
        Conflict::IrqConflict { node, reason, .. } => "IRQ conflict ["@ + node@ + "]: "@ + reason@,
        Conflict::Unroutable { node, reason } => "unroutable ["@ + node@ + "]: "@ + reason@,
        Conflict::InvalidTest { node, reason } => "invalid test ["@ + node@ + "]: "@ + reason@,
    }
}

fn join_signal_refs(users: &Vec<SignalRef>) -> (s: String)
    ensures
        s@ == join_and(users@),
{
    let mut s = String::new();
    let mut i: usize = 0;
    while i < users.len()
        invariant
            0 <= i <= users@.len(),
            s@ == join_and(users@.take(i as int)),
        decreases users@.len() - i,
    {
        assert(users@.take(i + 1).drop_last() =~= users@.take(i as int));
        if i > 0 {
            s.append(" and ");
        } else {
            assert(users@.take(0) =~= Seq::<SignalRef>::empty());
            assert(s@ =~= Seq::<char>::empty());
        }
        let r = users[i].to_string();
        s.append(r.as_str());
        proof {
            if i == 0 {
                assert(s@ =~= signal_ref_text(users@[0]));
            }
        }
        i += 1;
    }
    assert(users@.take(users@.len() as int) =~= users@);
    s
}

impl Conflict {
    /// This conflict's severity: an IRQ conflict's own, otherwise an error.
    pub fn severity(&self) -> (s: Severity)
        ensures
            s == severity_spec(*self),
    {
        match self {
            Conflict::IrqConflict { severity, .. } => *severity,
            _ => Severity::Error,
        }
    }

    /// The human-readable message, e.g. `unroutable [SPI1_MOSI]: ...`.
    pub fn to_string(&self) -> (s: String)
        ensures
            s@ == conflict_message(*self),
    {
        match self {
            Conflict::PinCollision { pin, users } => {
                let mut s = String::from_str("pin collision on ");
                s.append(pin.to_string().as_str());
                s.append(": assigned to ");
                s.append(join_signal_refs(users).as_str());
                s
            },
            Conflict::AfMismatch { pin, peripheral, signal } => {
                let mut s = String::from_str("AF mismatch: ");
                s.append(pin.to_string().as_str());
                s.append(" has no alternate function for ");
                s.append(peripheral.as_str());
                s.append("_");
                s.append(signal.as_str());
                s.append(" on this MCU");
                s
            },
            Conflict::InvalidPin { peripheral, key, value } => {
                let mut s = String::from_str("invalid pin: ");
                s.append(peripheral.as_str());
                s.append(".");
                s.append(key.as_str());
                s.append(" = ");
                s.append(str_debug(value.as_str()).as_str());
                s.append(" is not a valid pin name");
                s
            },
            Conflict::MissingPin { peripheral, key, signal } => {
                let mut s = String::from_str("missing required pin: ");
                s.append(peripheral.as_str());
                s.append(" needs a ");
                s.append(key.as_str());
                s.append(" pin (");
                s.append(peripheral.as_str());
                s.append("_");
                s.append(signal.as_str());
                s.append(")");
                s
            },
            Conflict::ClockDomainDisabled { peripheral, bus } => {
                let mut s = String::from_str("clock domain disabled: ");
                s.append(peripheral.as_str());
                s.append(" is on ");
                s.append(bus.name());
                s.append(" but [clocks].");
                s.append(bus.key());
                s.append(" = false");
                s
            },
            Conflict::PeripheralUnavailable { peripheral, family } => {
                let mut s = String::from_str("peripheral ");
                s.append(peripheral.as_str());
                s.append(" is not available on ");
                s.append(family.as_str());
                s
            },
            Conflict::ClockConstraint { node, reason } => {
                let mut s = String::from_str("clock constraint [");
                s.append(node.as_str());
                s.append("]: ");
                s.append(reason.as_str());
                s
            },
            Conflict::DmaCollision { first, second, controller, stream, suggestion } => {
                let mut s = String::from_str("DMA collision: ");
                s.append(first.as_str());
                s.append(" and ");
                s.append(second.as_str());
                s.append(" both need ");
                s.append(controller.as_str());
                s.append(" stream ");
                s.append(u64_to_string(*stream as u64).as_str());
                match suggestion {
                    Some(sg) => {
                        s.append(" (move ");
                        s.append(sg.0.as_str());
                        s.append(" to ");
                        s.append(sg.1.as_str());
                        s.append(")");
                    },
                    None => {},
                }
                s
            },
            Conflict::IrqConflict { node, reason, .. } => {
                let mut s = String::from_str("IRQ conflict [");
                s.append(node.as_str());
                s.append("]: ");
                s.append(reason.as_str());
                s
            },
            Conflict::Unroutable { node, reason } => {
                let mut s = String::from_str("unroutable [");
                s.append(node.as_str());
                s.append("]: ");
                s.append(reason.as_str());
                s
            },
            Conflict::InvalidTest { node, reason } => {
                let mut s = String::from_str("invalid test [");
                s.append(node.as_str());
                s.append("]: ");
                s.append(reason.as_str());
                s
            },
        }
    }
}

/// A conflict's content, with every string as its characters.
pub enum ConflictView {
    PinCollision { pin: Pin, users: Seq<(Seq<char>, Seq<char>)> },
    AfMismatch { pin: Pin, peripheral: Seq<char>, signal: Seq<char> },
    InvalidPin { peripheral: Seq<char>, key: Seq<char>, value: Seq<char> },
    MissingPin { peripheral: Seq<char>, key: Seq<char>, signal: Seq<char> },
    ClockDomainDisabled { peripheral: Seq<char>, bus: Bus },
    PeripheralUnavailable { peripheral: Seq<char>, family: Seq<char> },
    ClockConstraint { node: Seq<char>, reason: Seq<char> },
    DmaCollision {
        first: Seq<char>,
        second: Seq<char>,
        controller: Seq<char>,
        stream: u8,
        suggestion: Option<(Seq<char>, Seq<char>)>,
    },
    IrqConflict { node: Seq<char>, reason: Seq<char>, severity: Severity },
    Unroutable { node: Seq<char>, reason: Seq<char> },
    InvalidTest { node: Seq<char>, reason: Seq<char> },
}

/// A signal reference as plain values.
pub open spec fn signal_ref_view(r: SignalRef) -> (Seq<char>, Seq<char>) {
    (r.peripheral@, r.signal@)
}

impl View for Conflict {
    type V = ConflictView;

    open spec fn view(&self) -> ConflictView {
        match *self {
            Conflict::PinCollision { pin, users } => ConflictView::PinCollision {
                pin,
                users: users@.map_values(|r: SignalRef| signal_ref_view(r)),
            },
            Conflict::AfMismatch { pin, peripheral, signal } => ConflictView::AfMismatch {
                pin,
                peripheral: peripheral@,
                signal: signal@,
            },
            Conflict::InvalidPin { peripheral, key, value } => ConflictView::InvalidPin {
                peripheral: peripheral@,
                key: key@,
                value: value@,
            },
            Conflict::MissingPin { peripheral, key, signal } => ConflictView::MissingPin {
                peripheral: peripheral@,
                key: key@,
                signal: signal@,
            },
            Conflict::ClockDomainDisabled { peripheral, bus } => ConflictView::ClockDomainDisabled {
                peripheral: peripheral@,
                bus,
            },
            Conflict::PeripheralUnavailable { peripheral, family } => ConflictView::PeripheralUnavailable {
                peripheral: peripheral@,
                family: family@,
            },
            Conflict::ClockConstraint { node, reason } => ConflictView::ClockConstraint { node: node@, reason: reason@ },
            Conflict::DmaCollision { first, second, controller, stream, suggestion } => ConflictView::DmaCollision {
                first: first@,
                second: second@,
                controller: controller@,
                stream,
                suggestion: match suggestion {
                    Some(sg) => Some((sg.0@, sg.1@)),
                    None => None,
                },
            },
            Conflict::IrqConflict { node, reason, severity } => ConflictView::IrqConflict {
                node: node@,
                reason: reason@,
                severity,
            },
            Conflict::Unroutable { node, reason } => ConflictView::Unroutable { node: node@, reason: reason@ },
            Conflict::InvalidTest { node, reason } => ConflictView::InvalidTest { node: node@, reason: reason@ },
        }
    }
}

/// The views of a list of conflicts.
pub open spec fn views(cs: Seq<Conflict>) -> Seq<ConflictView> {
    cs.map_values(|c: Conflict| c@)
}

/// One use of a pin: the pin and the `(peripheral, signal)` it carries.
pub type PinUse = (Pin, (Seq<char>, Seq<char>));

/// Whether the database maps `signal` of `peripheral` onto `pin`.
pub open spec fn has_af(db: Seq<AfMapping>, pin: Pin, peripheral: Seq<char>, signal: Seq<char>) -> bool {
    exists|i: int| 0 <= i < db.len() && (#[trigger] db[i]).pin == pin && carries(db[i], peripheral, signal)
}

/// Whether the database knows `peripheral` at all.
pub open spec fn db_has(db: Seq<AfMapping>, peripheral: Seq<char>) -> bool {
    exists|i: int| 0 <= i < db.len() && (#[trigger] db[i]).peripheral@ == peripheral
}

/// The conflicts and pin uses of one role of a configured peripheral: an
/// unset required pin, a value that is no pin name, or a pin that does not
/// carry the signal (a valid pin is recorded as used either way).
pub open spec fn role_check(
    db: Seq<AfMapping>,
    p: Seq<char>,
    table: Seq<(String, crate::compiler::config::ConfigValue)>,
    role: (Seq<char>, Seq<char>, bool),
) -> (Seq<ConflictView>, Seq<PinUse>) {
    match pin_str_spec(table, role.0) {
        None => if role.2 {
            (seq![ConflictView::MissingPin { peripheral: p, key: role.0, signal: role.1 }], Seq::empty())
        } else {
            (Seq::empty(), Seq::empty())
        },
        Some(v) => match parse_pin_spec(v) {
            None => (seq![ConflictView::InvalidPin { peripheral: p, key: role.0, value: v }], Seq::empty()),
            Some(pin) => (
                if has_af(db, pin, p, role.1) {
                    Seq::empty()
                } else {
                    seq![ConflictView::AfMismatch { pin, peripheral: p, signal: role.1 }]
                },
                seq![(pin, (p, role.1))],
            ),
        },
    }
}

/// [`role_check`] over a role table, in order.
pub open spec fn roles_check(
    db: Seq<AfMapping>,
    p: Seq<char>,
    table: Seq<(String, crate::compiler::config::ConfigValue)>,
    roles: Seq<(Seq<char>, Seq<char>, bool)>,
) -> (Seq<ConflictView>, Seq<PinUse>)
    decreases roles.len(),
{
    if roles.len() == 0 {
        (Seq::empty(), Seq::empty())
    } else {
        let (c, u) = roles_check(db, p, table, roles.drop_last());
        let (c2, u2) = role_check(db, p, table, roles.last());
        (c + c2, u + u2)
    }
}

/// Whether `[clocks]` leaves `bus` enabled.
pub open spec fn bus_enabled(c: crate::compiler::config::Clocks, bus: Bus) -> bool {
    match bus {
        Bus::Ahb1 => c.ahb1,
        Bus::Apb1 => c.apb1,
        Bus::Apb2 => c.apb2,
    }
}

/// The conflicts and pin uses of one `[peripherals.X]` table: nothing for an
/// unmodelled kind; one unavailability report for a peripheral the family
/// lacks; else a disabled clock domain, then each role's conflicts.
pub open spec fn entry_check(config: Config, db: Seq<AfMapping>, entry: (String, Peripheral)) -> (Seq<ConflictView>, Seq<PinUse>) {
    match kind_roles(strip_trailing_digits(entry.0@)) {
        None => (Seq::empty(), Seq::empty()),
        Some(roles) => {
            let p = peripheral_name_spec(entry.0@);
            if !db_has(db, p) {
                (seq![ConflictView::PeripheralUnavailable { peripheral: p, family: config.device.family@ }], Seq::empty())
            } else {
                let dom = match peripheral_bus_spec(p) {
                    Some(bus) => if !bus_enabled(config.clocks, bus) {
                        seq![ConflictView::ClockDomainDisabled { peripheral: p, bus }]
                    } else {
                        Seq::empty()
                    },
                    None => Seq::empty(),
                };
                let (c, u) = roles_check(db, p, entry.1.0@, roles);
                (dom + c, u)
            }
        },
    }
}

/// [`entry_check`] over the peripheral tables, in order.
pub open spec fn entries_check(config: Config, db: Seq<AfMapping>, entries: Seq<(String, Peripheral)>) -> (Seq<ConflictView>, Seq<PinUse>)
    decreases entries.len(),
{
    if entries.len() == 0 {
        (Seq::empty(), Seq::empty())
    } else {
        let (c, u) = entries_check(config, db, entries.drop_last());
        let (c2, u2) = entry_check(config, db, entries.last());
        (c + c2, u + u2)
    }
}

/// The order of signal references: by peripheral, then by signal.
pub open spec fn pair_lt(a: (Seq<char>, Seq<char>), b: (Seq<char>, Seq<char>)) -> bool {
    seq_lt(a.0, b.0) || (a.0 == b.0 && seq_lt(a.1, b.1))
}

/// `x` inserted into `s` after every element not above it.
pub open spec fn insert_sorted(s: Seq<(Seq<char>, Seq<char>)>, x: (Seq<char>, Seq<char>)) -> Seq<(Seq<char>, Seq<char>)>
    decreases s.len(),
{
    if s.len() == 0 {
        seq![x]
    } else if pair_lt(x, s.last()) {
        insert_sorted(s.drop_last(), x).push(s.last())
    } else {
        s.push(x)
    }
}

/// `s` sorted by insertion (stable).
pub open spec fn sort_pairs(s: Seq<(Seq<char>, Seq<char>)>) -> Seq<(Seq<char>, Seq<char>)>
    decreases s.len(),
{
    if s.len() == 0 {
        s
    } else {
        insert_sorted(sort_pairs(s.drop_last()), s.last())
    }
}

/// The users of `pin` among `uses`, in order.
pub open spec fn users_of(uses: Seq<PinUse>, pin: Pin) -> Seq<(Seq<char>, Seq<char>)>
    decreases uses.len(),
{
    if uses.len() == 0 {
        Seq::empty()
    } else if uses.last().0 == pin {
        users_of(uses.drop_last(), pin).push(uses.last().1)
    } else {
        users_of(uses.drop_last(), pin)
    }
}

/// The port at position `i` of `A..=H`.
pub open spec fn port_at(i: nat) -> Port {
    if i == 0 {
        Port::A
    } else if i == 1 {
        Port::B
    } else if i == 2 {
        Port::C
    } else if i == 3 {
        Port::D
    } else if i == 4 {
        Port::E
    } else if i == 5 {
        Port::F
    } else if i == 6 {
        Port::G
    } else {
        Port::H
    }
}

/// The `k`-th pin in ascending order (`PA0`, …, `PA15`, `PB0`, …).
pub open spec fn pin_at(k: nat) -> Pin {
    Pin { port: port_at(k / 16), number: (k % 16) as u8 }
}

/// The collision report of one pin: its users sorted, when more than one
/// signal uses it.
pub open spec fn collision_for(uses: Seq<PinUse>, pin: Pin) -> Seq<ConflictView> {
    let us = users_of(uses, pin);
    if us.len() > 1 {
        seq![ConflictView::PinCollision { pin, users: sort_pairs(us) }]
    } else {
        Seq::empty()
    }
}

/// The collision reports of the first `k` pins, in pin order.
pub open spec fn collisions_upto(uses: Seq<PinUse>, k: nat) -> Seq<ConflictView>
    decreases k,
{
    if k == 0 {
        Seq::empty()
    } else {
        collisions_upto(uses, (k - 1) as nat) + collision_for(uses, pin_at((k - 1) as nat))
    }
}

/// The pin-level conflicts of a config: per peripheral table (in order) its
/// availability, clock-domain, missing/invalid pin and AF-mismatch
/// conflicts; then one collision per over-subscribed pin, in pin order.
pub open spec fn pin_conflicts_spec(config: Config, db: Seq<AfMapping>) -> Seq<ConflictView> {
    let (c, uses) = entries_check(config, db, config.peripherals@);
    c + collisions_upto(uses, 128)
}

/// Pin uses as plain values.
pub open spec fn uses_model(v: Seq<(Pin, SignalRef)>) -> Seq<PinUse> {
    v.map_values(|u: (Pin, SignalRef)| (u.0, signal_ref_view(u.1)))
}

fn push_conflict(out: &mut Vec<Conflict>, c: Conflict)
    ensures
        views(final(out)@) == views(old(out)@).push(c@),
{
    let ghost before = out@;
    out.push(c);
    assert(views(out@) =~= views(before).push(c@));
}

fn check_role(
    out: &mut Vec<Conflict>,
    uses: &mut Vec<(Pin, SignalRef)>,
    db: &Database,
    p: &String,
    table: &Peripheral,
    role: &crate::compiler::model::Role,
)
    ensures
        ({
            let (c, u) = role_check(db@, p@, table.0@, crate::compiler::model::role_model(*role));
            &&& views(final(out)@) == views(old(out)@) + c
            &&& uses_model(final(uses)@) == uses_model(old(uses)@) + u
        }),
{
    let ghost out0 = views(out@);
    let ghost uses0 = uses_model(uses@);
    match table.pin_str(role.key) {
        None => {
            if role.required {
                push_conflict(
                    out,
                    Conflict::MissingPin { peripheral: owned(p.as_str()), key: owned(role.key), signal: owned(role.signal) },
                );
            }
            assert(views(out@) =~= out0 + role_check(db@, p@, table.0@, crate::compiler::model::role_model(*role)).0);
            assert(uses_model(uses@) =~= uses0 + Seq::<PinUse>::empty());
        },
        Some(value) => {
            match Pin::parse(value) {
                Err(_) => {
                    push_conflict(
                        out,
                        Conflict::InvalidPin { peripheral: owned(p.as_str()), key: owned(role.key), value: owned(value) },
                    );
                    assert(uses_model(uses@) =~= uses0 + Seq::<PinUse>::empty());
                },
                Ok(pin) => {
                    let af = db.find_af(pin, p.as_str(), role.signal);
                    if af.is_none() {
                        push_conflict(
                            out,
                            Conflict::AfMismatch { pin, peripheral: owned(p.as_str()), signal: owned(role.signal) },
                        );
                    } else {
                        assert(views(out@) =~= out0 + Seq::<ConflictView>::empty());
                    }
                    let ghost ub = uses@;
                    uses.push((pin, SignalRef { peripheral: owned(p.as_str()), signal: owned(role.signal) }));
                    assert(uses_model(uses@) =~= uses_model(ub).push((pin, (p@, role.signal@))));
                },
            }
        },
    }
}

fn check_roles(
    out: &mut Vec<Conflict>,
    uses: &mut Vec<(Pin, SignalRef)>,
    db: &Database,
    p: &String,
    table: &Peripheral,
    roles: &[crate::compiler::model::Role],
)
    ensures
        ({
            let (c, u) = roles_check(db@, p@, table.0@, roles_model(roles@));
            &&& views(final(out)@) == views(old(out)@) + c
            &&& uses_model(final(uses)@) == uses_model(old(uses)@) + u
        }),
{
    let ghost out0 = views(out@);
    let ghost uses0 = uses_model(uses@);
    let mut i: usize = 0;
    while i < roles.len()
        invariant
            0 <= i <= roles@.len(),
            ({
                let (c, u) = roles_check(db@, p@, table.0@, roles_model(roles@.take(i as int)));
                &&& views(out@) == out0 + c
                &&& uses_model(uses@) == uses0 + u
            }),
        decreases roles@.len() - i,
    {
        assert(roles_model(roles@.take(i + 1)).drop_last() =~= roles_model(roles@.take(i as int)));
        assert(roles_model(roles@.take(i + 1)).last() == crate::compiler::model::role_model(roles@[i as int]));
        let ghost (c0, u0) = roles_check(db@, p@, table.0@, roles_model(roles@.take(i as int)));
        check_role(out, uses, db, p, table, &roles[i]);
        let ghost (c1, u1) = role_check(db@, p@, table.0@, crate::compiler::model::role_model(roles@[i as int]));
        assert(views(out@) =~= out0 + (c0 + c1));
        assert(uses_model(uses@) =~= uses0 + (u0 + u1));
        i += 1;
    }
    assert(roles@.take(roles@.len() as int) =~= roles@);
}

fn check_entry(
    out: &mut Vec<Conflict>,
    uses: &mut Vec<(Pin, SignalRef)>,
    config: &Config,
    db: &Database,
    entry: &(String, Peripheral),
)
    ensures
        ({
            let (c, u) = entry_check(*config, db@, *entry);
            &&& views(final(out)@) == views(old(out)@) + c
            &&& uses_model(final(uses)@) == uses_model(old(uses)@) + u
        }),
{
    let ghost out0 = views(out@);
    let ghost uses0 = uses_model(uses@);
    let roles = match roles_for(entry.0.as_str()) {
        Some(r) => r,
        None => {
            assert(views(out@) =~= out0 + Seq::<ConflictView>::empty());
            assert(uses_model(uses@) =~= uses0 + Seq::<PinUse>::empty());
            return;
        },
    };
    let p = peripheral_name(entry.0.as_str());
    if !db.has_peripheral(p.as_str()) {
        push_conflict(
            out,
            Conflict::PeripheralUnavailable { peripheral: owned(p.as_str()), family: owned(config.device.family.as_str()) },
        );
        assert(uses_model(uses@) =~= uses0 + Seq::<PinUse>::empty());
        return;
    }
    match peripheral_bus(p.as_str()) {
        Some(bus) => {
            let enabled = match bus {
                Bus::Ahb1 => config.clocks.ahb1,
                Bus::Apb1 => config.clocks.apb1,
                Bus::Apb2 => config.clocks.apb2,
            };
            if !enabled {
                push_conflict(out, Conflict::ClockDomainDisabled { peripheral: owned(p.as_str()), bus });
            }
        },
        None => {},
    }
    let ghost mid = views(out@);
    check_roles(out, uses, db, &p, &entry.1, roles);
    assert(views(out@) =~= out0 + entry_check(*config, db@, *entry).0);
}

fn port_from_index(i: usize) -> (p: Port)
    requires
        i < 8,
    ensures
        p == port_at(i as nat),
{
    if i == 0 {
        Port::A
    } else if i == 1 {
        Port::B
    } else if i == 2 {
        Port::C
    } else if i == 3 {
        Port::D
    } else if i == 4 {
        Port::E
    } else if i == 5 {
        Port::F
    } else if i == 6 {
        Port::G
    } else {
        Port::H
    }
}

fn pair_less(a: &SignalRef, b: &SignalRef) -> (r: bool)
    ensures
        r == pair_lt(signal_ref_view(*a), signal_ref_view(*b)),
{
    if str_lt(a.peripheral.as_str(), b.peripheral.as_str()) {
        true
    } else if str_eq(a.peripheral.as_str(), b.peripheral.as_str()) {
        str_lt(a.signal.as_str(), b.signal.as_str())
    } else {
        false
    }
}

proof fn lemma_insert_sorted_at(s: Seq<(Seq<char>, Seq<char>)>, x: (Seq<char>, Seq<char>), p: int)
    requires
        0 <= p <= s.len(),
        forall|i: int| p <= i < s.len() ==> pair_lt(x, #[trigger] s[i]),
        p == 0 || !pair_lt(x, s[p - 1]),
    ensures
        insert_sorted(s, x) == s.take(p) + seq![x] + s.skip(p),
    decreases s.len(),
{
    if s.len() == 0 {
        assert(s.take(p) + seq![x] + s.skip(p) =~= seq![x]);
    } else if pair_lt(x, s.last()) {
        assert(p < s.len());
        let d = s.drop_last();
        assert forall|i: int| p <= i < d.len() implies pair_lt(x, #[trigger] d[i]) by {
            assert(d[i] == s[i]);
        }
        if p > 0 {
            assert(d[p - 1] == s[p - 1]);
        }
        lemma_insert_sorted_at(d, x, p);
        assert(insert_sorted(s, x) =~= s.take(p) + seq![x] + s.skip(p));
    } else {
        assert(p == s.len());
        assert(s.take(p) + seq![x] + s.skip(p) =~= s.push(x));
    }
}

fn insert_signal_ref(v: &mut Vec<SignalRef>, x: SignalRef)
    ensures
        final(v)@.map_values(|r: SignalRef| signal_ref_view(r)) == insert_sorted(
            old(v)@.map_values(|r: SignalRef| signal_ref_view(r)),
            signal_ref_view(x),
        ),
{
    let ghost m = v@.map_values(|r: SignalRef| signal_ref_view(r));
    let mut p = v.len();
    while p > 0 && pair_less(&x, &v[p - 1])
        invariant
            p <= v@.len(),
            m == v@.map_values(|r: SignalRef| signal_ref_view(r)),
            forall|i: int| p <= i < v@.len() ==> pair_lt(signal_ref_view(x), #[trigger] m[i]),
        decreases p,
    {
        p -= 1;
    }
    proof {
        lemma_insert_sorted_at(m, signal_ref_view(x), p as int);
    }
    let ghost xv = signal_ref_view(x);
    v.insert(p, x);
    assert(v@.map_values(|r: SignalRef| signal_ref_view(r)) =~= m.take(p as int) + seq![xv] + m.skip(p as int));
}

proof fn lemma_users_prefix(uses: Seq<PinUse>, pin: Pin, i: int)
    requires
        0 <= i < uses.len(),
    ensures
        users_of(uses.take(i + 1), pin) == if uses[i].0 == pin {
            users_of(uses.take(i), pin).push(uses[i].1)
        } else {
            users_of(uses.take(i), pin)
        },
{
    assert(uses.take(i + 1).drop_last() =~= uses.take(i));
    assert(uses.take(i + 1).last() == uses[i]);
}

fn pin_users(uses: &Vec<(Pin, SignalRef)>, pin: Pin) -> (r: Vec<SignalRef>)
    ensures
        r@.map_values(|x: SignalRef| signal_ref_view(x)) == sort_pairs(users_of(uses_model(uses@), pin)),
{
    let ghost um = uses_model(uses@);
    let mut r: Vec<SignalRef> = Vec::new();
    let mut i: usize = 0;
    assert(r@.map_values(|x: SignalRef| signal_ref_view(x)) =~= sort_pairs(users_of(um.take(0), pin)));
    while i < uses.len()
        invariant
            um == uses_model(uses@),
            0 <= i <= uses@.len(),
            r@.map_values(|x: SignalRef| signal_ref_view(x)) == sort_pairs(users_of(um.take(i as int), pin)),
        decreases uses@.len() - i,
    {
        proof {
            lemma_users_prefix(um, pin, i as int);
        }
        if uses[i].0 == pin {
            let sr = SignalRef { peripheral: owned(uses[i].1.peripheral.as_str()), signal: owned(uses[i].1.signal.as_str()) };
            insert_signal_ref(&mut r, sr);
            assert(users_of(um.take(i + 1), pin).drop_last() =~= users_of(um.take(i as int), pin));
        }
        i += 1;
    }
    assert(um.take(uses@.len() as int) =~= um);
    r
}

/// The pin-level conflicts of a config against a family database: per
/// peripheral table, in order, its availability, clock-domain, missing or
/// invalid pin and alternate-function conflicts; then one collision per pin
/// that more than one signal uses, in pin order, its users sorted.
pub fn pin_conflicts(config: &Config, db: &Database) -> (out: Vec<Conflict>)
    ensures
        views(out@) == pin_conflicts_spec(*config, db@),
{
    let mut out: Vec<Conflict> = Vec::new();
    let mut uses: Vec<(Pin, SignalRef)> = Vec::new();
    let mut i: usize = 0;
    while i < config.peripherals.len()
        invariant
            0 <= i <= config.peripherals@.len(),
            ({
                let (c, u) = entries_check(*config, db@, config.peripherals@.take(i as int));
                &&& views(out@) == c
                &&& uses_model(uses@) == u
            }),
        decreases config.peripherals@.len() - i,
    {
        assert(config.peripherals@.take(i + 1).drop_last() =~= config.peripherals@.take(i as int));
        assert(config.peripherals@.take(i + 1).last() == config.peripherals@[i as int]);
        let ghost (c0, u0) = entries_check(*config, db@, config.peripherals@.take(i as int));
        check_entry(&mut out, &mut uses, config, db, &config.peripherals[i]);
        let ghost (c1, u1) = entry_check(*config, db@, config.peripherals@[i as int]);
        assert(views(out@) =~= c0 + c1);
        assert(uses_model(uses@) =~= u0 + u1);
        i += 1;
    }
    assert(config.peripherals@.take(config.peripherals@.len() as int) =~= config.peripherals@);
    let ghost base = views(out@);
    let ghost um = uses_model(uses@);
    let mut k: usize = 0;
    assert(base + collisions_upto(um, 0) =~= base);
    while k < 128
        invariant
            0 <= k <= 128,
            um == uses_model(uses@),
            views(out@) == base + collisions_upto(um, k as nat),
        decreases 128 - k,
    {
        let pin = Pin { port: port_from_index(k / 16), number: (k % 16) as u8 };
        assert(pin == pin_at(k as nat));
        let users = pin_users(&uses, pin);
        proof {
            lemma_sort_len(users_of(um, pin));
        }
        if users.len() > 1 {
            let ghost uv = users@.map_values(|x: SignalRef| signal_ref_view(x));
            push_conflict(&mut out, Conflict::PinCollision { pin, users });
        }
        assert(views(out@) =~= base + collisions_upto(um, (k + 1) as nat));
        k += 1;
    }
    out
}

proof fn lemma_insert_len(s: Seq<(Seq<char>, Seq<char>)>, x: (Seq<char>, Seq<char>))
    ensures
        insert_sorted(s, x).len() == s.len() + 1,
    decreases s.len(),
{
    if s.len() > 0 && pair_lt(x, s.last()) {
        lemma_insert_len(s.drop_last(), x);
    }
}

proof fn lemma_sort_len(s: Seq<(Seq<char>, Seq<char>)>)
    ensures
        sort_pairs(s).len() == s.len(),
    decreases s.len(),
{
    if s.len() > 0 {
        lemma_sort_len(s.drop_last());
        lemma_insert_len(sort_pairs(s.drop_last()), s.last());
    }
}

/// `s` is in non-decreasing signal-reference order.
pub open spec fn pairs_sorted(s: Seq<(Seq<char>, Seq<char>)>) -> bool {
    forall|i: int, j: int| 0 <= i < j < s.len() ==> !pair_lt(#[trigger] s[j], #[trigger] s[i])
}

proof fn lemma_pair_lt_transitive(a: (Seq<char>, Seq<char>), b: (Seq<char>, Seq<char>), c: (Seq<char>, Seq<char>))
    requires
        pair_lt(a, b),
        pair_lt(b, c),
    ensures
        pair_lt(a, c),
{
    if seq_lt(a.0, b.0) && seq_lt(b.0, c.0) {
        lemma_seq_lt_transitive(a.0, b.0, c.0);
    } else if seq_lt(a.0, b.0) {
    } else if seq_lt(b.0, c.0) {
    } else {
        lemma_seq_lt_transitive(a.1, b.1, c.1);
    }
}

proof fn lemma_pair_lt_total(a: (Seq<char>, Seq<char>), b: (Seq<char>, Seq<char>))
    ensures
        a != b ==> pair_lt(a, b) || pair_lt(b, a),
        !pair_lt(a, a),
{
    lemma_seq_lt_total(a.0, b.0);
    lemma_seq_lt_total(a.1, b.1);
    lemma_seq_lt_irreflexive(a.0);
    lemma_seq_lt_irreflexive(a.1);
}

/// Not above, under the total order: `!pair_lt(b, a)` chains.
proof fn lemma_not_above_transitive(a: (Seq<char>, Seq<char>), b: (Seq<char>, Seq<char>), c: (Seq<char>, Seq<char>))
    requires
        !pair_lt(b, a),
        !pair_lt(c, b),
    ensures
        !pair_lt(c, a),
{
    lemma_pair_lt_total(a, b);
    if pair_lt(c, a) && a != b {
        lemma_pair_lt_transitive(c, a, b);
    }
}

proof fn lemma_insert_sorted(s: Seq<(Seq<char>, Seq<char>)>, x: (Seq<char>, Seq<char>))
    requires
        pairs_sorted(s),
    ensures
        pairs_sorted(insert_sorted(s, x)),
        insert_sorted(s, x).to_multiset() == s.to_multiset().insert(x),
        forall|e: (Seq<char>, Seq<char>)| #[trigger] insert_sorted(s, x).contains(e) ==> e == x || s.contains(e),
    decreases s.len(),
{
    broadcast use vstd::seq_lib::group_to_multiset_ensures;
    if s.len() == 0 {
        assert(seq![x].to_multiset() =~= vstd::multiset::Multiset::<(Seq<char>, Seq<char>)>::empty().insert(x)) by {
            assert(seq![x] =~= Seq::<(Seq<char>, Seq<char>)>::empty().push(x));
        }
    } else if pair_lt(x, s.last()) {
        let d = s.drop_last();
        assert forall|i: int, j: int| 0 <= i < j < d.len() implies !pair_lt(#[trigger] d[j], #[trigger] d[i]) by {
            assert(d[i] == s[i] && d[j] == s[j]);
        }
        lemma_insert_sorted(d, x);
        let t = insert_sorted(d, x);
        let r = t.push(s.last());
        assert forall|i: int, j: int| 0 <= i < j < r.len() implies !pair_lt(#[trigger] r[j], #[trigger] r[i]) by {
            if j == r.len() - 1 {
                assert(t.contains(r[i]));
                if r[i] == x {
                    lemma_pair_lt_total(x, s.last());
                    if pair_lt(s.last(), x) {
                        lemma_pair_lt_transitive(x, s.last(), x);
                    }
                } else {
                    assert(d.contains(r[i]));
                    let k = choose|k: int| 0 <= k < d.len() && d[k] == r[i];
                    assert(s[k] == d[k]);
                    assert(!pair_lt(s[s.len() - 1], s[k]));
                }
            } else {
                assert(r[i] == t[i] && r[j] == t[j]);
            }
        }
        assert forall|e: (Seq<char>, Seq<char>)| #[trigger] r.contains(e) implies e == x || s.contains(e) by {
            if e != s.last() {
                let k = choose|k: int| 0 <= k < r.len() && r[k] == e;
                assert(t[k] == e);
                assert(t.contains(e));
                if e != x {
                    let m = choose|m: int| 0 <= m < d.len() && d[m] == e;
                    assert(s[m] == e);
                }
            } else {
                assert(s[s.len() - 1] == e);
            }
        }
        assert(s =~= d.push(s.last()));
    } else {
        let r = s.push(x);
        assert forall|i: int, j: int| 0 <= i < j < r.len() implies !pair_lt(#[trigger] r[j], #[trigger] r[i]) by {
            if j == r.len() - 1 {
                if i < s.len() - 1 {
                    assert(!pair_lt(s[s.len() - 1], s[i]));
                    lemma_not_above_transitive(s[i], s[s.len() - 1], x);
                }
            } else {
                assert(r[i] == s[i] && r[j] == s[j]);
            }
        }
        assert forall|e: (Seq<char>, Seq<char>)| #[trigger] r.contains(e) implies e == x || s.contains(e) by {
            let k = choose|k: int| 0 <= k < r.len() && r[k] == e;
            if k < s.len() {
                assert(s[k] == e);
            }
        }
    }
}

/// The users of a pin collision are reported sorted (by peripheral, then
/// signal) and are exactly the signals that claimed the pin: the reported
/// list is a sorted permutation of the claims.
pub proof fn lemma_collision_users_sorted(s: Seq<(Seq<char>, Seq<char>)>)
    ensures
        pairs_sorted(sort_pairs(s)),
        sort_pairs(s).to_multiset() == s.to_multiset(),
    decreases s.len(),
{
    broadcast use vstd::seq_lib::group_to_multiset_ensures;
    if s.len() > 0 {
        lemma_collision_users_sorted(s.drop_last());
        lemma_insert_sorted(sort_pairs(s.drop_last()), s.last());
        assert(s =~= s.drop_last().push(s.last()));
    }
}

/// What the solver checks of a parsed `[[test]]` assertion: the pin it
/// observes, the UART instance it drives, or a trace event (nothing to
/// check).
#[derive(Debug, Clone, PartialEq, Eq)]
pub enum AssertionSubject {
    Pin(String),
    Uart(String),
    Trace,
}

/// An invalid-test conflict on `node`.
pub open spec fn invalid_test(node: Seq<char>, reason: Seq<char>) -> Seq<ConflictView> {
    seq![ConflictView::InvalidTest { node, reason }]
}

/// The backend check every valid-kind test gets.
pub open spec fn backend_check(t: crate::compiler::config::TestCase) -> Seq<ConflictView> {
    match t.backend {
        Some(b) => if b@ != "qemu"@ && b@ != "hardware"@ && b@ != "both"@ {
            invalid_test(t.name@, "backend must be \"qemu\", \"hardware\", or \"both\", got "@ + str_debug_spec(b@))
        } else {
            Seq::empty()
        },
        None => Seq::empty(),
    }
}

/// The conflicts of one `[[test]]` block, given what parsing its assertion
/// gave (consulted only for a declarative test that has one).
pub open spec fn test_check(
    db: Seq<AfMapping>,
    t: crate::compiler::config::TestCase,
    parsed: Result<AssertionSubject, String>,
) -> Seq<ConflictView> {
    let node = t.name@;
    match t.kind {
        Some(k) if k@ != "declarative"@ && k@ != "scripted"@ => invalid_test(
            node,
            "type must be \"declarative\" or \"scripted\", got "@ + str_debug_spec(k@),
        ),
        _ => if t.kind matches Some(k) && k@ == "scripted"@ {
            (if t.script matches Some(sc) && sc@.len() > 0 {
                Seq::empty()
            } else {
                invalid_test(node, "scripted test requires a non-empty `script`"@)
            }) + (if t.assertion@.len() > 0 {
                invalid_test(node, "scripted test must not set `assertion`"@)
            } else {
                Seq::empty()
            }) + backend_check(t)
        } else if t.script is Some {
            invalid_test(node, "declarative test must not set `script`"@)
        } else if t.assertion@.len() == 0 {
            invalid_test(node, "declarative test requires an `assertion`"@)
        } else {
            match parsed {
                Err(reason) => invalid_test(node, reason@),
                Ok(AssertionSubject::Pin(pin)) => if parse_pin_spec(pin@) is None {
                    invalid_test(node, "'"@ + pin@ + "' is not a valid pin name"@)
                } else {
                    backend_check(t)
                },
                Ok(AssertionSubject::Uart(inst)) => if !db_has(db, peripheral_name_spec(inst@)) {
                    invalid_test(node, "peripheral "@ + inst@ + " is not available on this family"@)
                } else {
                    backend_check(t)
                },
                Ok(AssertionSubject::Trace) => backend_check(t),
            }
        },
    }
}

/// [`test_check`] over the test blocks, in document order.
pub open spec fn tests_check(
    db: Seq<AfMapping>,
    ts: Seq<crate::compiler::config::TestCase>,
    parsed: Seq<Result<AssertionSubject, String>>,
) -> Seq<ConflictView>
    decreases ts.len(),
{
    if ts.len() == 0 {
        Seq::empty()
    } else {
        tests_check(db, ts.drop_last(), parsed) + test_check(db, ts.last(), parsed[ts.len() - 1])
    }
}

proof fn lemma_tests_check_prefix(
    db: Seq<AfMapping>,
    ts: Seq<crate::compiler::config::TestCase>,
    parsed: Seq<Result<AssertionSubject, String>>,
    i: int,
)
    requires
        0 <= i < ts.len(),
    ensures
        tests_check(db, ts.take(i + 1), parsed) == tests_check(db, ts.take(i), parsed) + test_check(db, ts[i], parsed[i]),
{
    assert(ts.take(i + 1).drop_last() =~= ts.take(i));
    assert(ts.take(i + 1).last() == ts[i]);
}

fn push_invalid_test(out: &mut Vec<Conflict>, node: &String, reason: String)
    ensures
        views(final(out)@) == views(old(out)@) + invalid_test(node@, reason@),
{
    let ghost before = views(out@);
    push_conflict(out, Conflict::InvalidTest { node: owned(node.as_str()), reason });
    assert(views(out@) =~= before + invalid_test(node@, reason@));
}

fn check_backend(out: &mut Vec<Conflict>, t: &crate::compiler::config::TestCase)
    ensures
        views(final(out)@) == views(old(out)@) + backend_check(*t),
{
    let ghost before = views(out@);
    if let Some(b) = &t.backend {
        if !str_eq(b.as_str(), "qemu") && !str_eq(b.as_str(), "hardware") && !str_eq(b.as_str(), "both") {
            let mut reason = String::from_str("backend must be \"qemu\", \"hardware\", or \"both\", got ");
            reason.append(str_debug(b.as_str()).as_str());
            push_invalid_test(out, &t.name, reason);
            return;
        }
    }
    assert(views(out@) =~= before + backend_check(*t));
}

fn check_test(out: &mut Vec<Conflict>, db: &Database, t: &crate::compiler::config::TestCase, parsed: &Result<AssertionSubject, String>)
    ensures
        views(final(out)@) == views(old(out)@) + test_check(db@, *t, *parsed),
{
    let ghost before = views(out@);
    proof {
        reveal_strlit("declarative");
        reveal_strlit("scripted");
    }
    let mut scripted = false;
    if let Some(k) = &t.kind {
        if str_eq(k.as_str(), "scripted") {
            scripted = true;
        } else if !str_eq(k.as_str(), "declarative") {
            let mut reason = String::from_str("type must be \"declarative\" or \"scripted\", got ");
            reason.append(str_debug(k.as_str()).as_str());
            push_invalid_test(out, &t.name, reason);
            return;
        }
    }
    if scripted {
        let script_empty = match &t.script {
            Some(sc) => sc.unicode_len() == 0,
            None => true,
        };
        let ghost b0 = views(out@);
        if script_empty {
            push_invalid_test(out, &t.name, owned("scripted test requires a non-empty `script`"));
        } else {
            assert(views(out@) =~= b0 + Seq::<ConflictView>::empty());
        }
        let ghost b1 = views(out@);
        if t.assertion.unicode_len() > 0 {
            push_invalid_test(out, &t.name, owned("scripted test must not set `assertion`"));
        } else {
            assert(views(out@) =~= b1 + Seq::<ConflictView>::empty());
        }
        check_backend(out, t);
        assert(views(out@) =~= before + test_check(db@, *t, *parsed));
        return;
    }
    if t.script.is_some() {
        push_invalid_test(out, &t.name, owned("declarative test must not set `script`"));
        return;
    }
    if t.assertion.unicode_len() == 0 {
        push_invalid_test(out, &t.name, owned("declarative test requires an `assertion`"));
        return;
    }
    match parsed {
        Err(reason) => {
            push_invalid_test(out, &t.name, owned(reason.as_str()));
        },
        Ok(AssertionSubject::Pin(pin)) => {
            if Pin::parse(pin.as_str()).is_err() {
                let mut reason = String::from_str("'");
                reason.append(pin.as_str());
                reason.append("' is not a valid pin name");
                push_invalid_test(out, &t.name, reason);
            } else {
                check_backend(out, t);
            }
        },
        Ok(AssertionSubject::Uart(inst)) => {
            let p = peripheral_name(inst.as_str());
            if !db.has_peripheral(p.as_str()) {
                let mut reason = String::from_str("peripheral ");
                reason.append(inst.as_str());
                reason.append(" is not available on this family");
                push_invalid_test(out, &t.name, reason);
            } else {
                check_backend(out, t);
            }
        },
        Ok(AssertionSubject::Trace) => {
            check_backend(out, t);
        },
    }
}

/// The `[[test]]` conflicts of a config, in document order: an unknown test
/// type; a scripted test without a script or with an assertion; a
/// declarative test with a script, without an assertion, whose assertion
/// does not parse (`parsed[i]` is what parsing test `i`'s assertion gave),
/// or whose pin or UART instance does not exist; an unknown backend.
pub fn test_conflicts(config: &Config, db: &Database, parsed: &Vec<Result<AssertionSubject, String>>) -> (out: Vec<Conflict>)
    requires
        parsed@.len() == config.test@.len(),
    ensures
        views(out@) == tests_check(db@, config.test@, parsed@),
{
    let mut out: Vec<Conflict> = Vec::new();
    let mut i: usize = 0;
    assert(views(out@) =~= tests_check(db@, config.test@.take(0), parsed@));
    while i < config.test.len()
        invariant
            parsed@.len() == config.test@.len(),
            0 <= i <= config.test@.len(),
            views(out@) == tests_check(db@, config.test@.take(i as int), parsed@),
        decreases config.test@.len() - i,
    {
        proof {
            lemma_tests_check_prefix(db@, config.test@, parsed@, i as int);
        }
        check_test(&mut out, db, &config.test[i], &parsed[i]);
        i += 1;
    }
    assert(config.test@.take(config.test@.len() as int) =~= config.test@);
    out
}

/// Clock-constraint `(node, reason)` pairs as conflict views.
pub open spec fn clock_views(s: Seq<(Seq<char>, Seq<char>)>) -> Seq<ConflictView> {
    s.map_values(|x: (Seq<char>, Seq<char>)| ConflictView::ClockConstraint { node: x.0, reason: x.1 })
}

/// The DMA rows a family name selects.
pub open spec fn family_dma_rows(family: Seq<char>) -> Seq<crate::db::dma::DmaRequest> {
    if family == "STM32F411RE"@ {
        crate::db::dma::f411re_requests()
    } else {
        crate::db::dma::f446re_requests()
    }
}

/// The IRQ rows a family name selects.
pub open spec fn family_irq_rows(family: Seq<char>) -> Seq<crate::db::irq::PeripheralIrq> {
    if family == "STM32F411RE"@ {
        crate::db::irq::f411re_rows()
    } else {
        crate::db::irq::f446re_rows()
    }
}

/// Everything the solver reports, in its fixed order: the pin-level
/// conflicts, the clock-tree constraints (against clock tree `t`), the DMA
/// collisions, the IRQ/NVIC conflicts, and the `[[test]]` conflicts.
pub open spec fn solve_spec(
    config: Config,
    db: Seq<AfMapping>,
    parsed: Seq<Result<AssertionSubject, String>>,
    t: crate::db::clock::ClockTree,
) -> Seq<ConflictView> {
    let family = config.device.family@;
    pin_conflicts_spec(config, db) + clock_views(crate::compiler::clocks::validate_spec(config, t))
        + crate::compiler::dma::dma_conflicts_spec(config, family_dma_rows(family))
        + crate::compiler::irq::irq_conflicts_spec(config, family_irq_rows(family)) + tests_check(db, config.test@, parsed)
}

/// Run the solver over `config` against `db`: every conflict, in a
/// deterministic order. `parsed[i]` is what parsing the assertion of test
/// block `i` gave.
pub fn solve(config: &Config, db: &Database, parsed: &Vec<Result<AssertionSubject, String>>) -> (out: Vec<Conflict>)
    requires
        parsed@.len() == config.test@.len(),
    ensures
        exists|t: crate::db::clock::ClockTree|
            crate::compiler::family_tree(t, config.device.family@) && crate::compiler::clocks::tree_ok(t) && views(out@)
                == #[trigger] solve_spec(*config, db@, parsed@, t),
{
    let mut out = pin_conflicts(config, db);
    let ghost pins = views(out@);
    let tree = crate::compiler::clock_tree_for(config.device.family.as_str());
    let mut clock = crate::compiler::clocks::validate(config, &tree);
    assert(views(clock@) =~= clock_views(crate::compiler::clocks::validate_spec(*config, tree))) by {
        let cs = clock@;
        assert forall|i: int| 0 <= i < cs.len() implies #[trigger] views(cs)[i] == clock_views(
            crate::compiler::clocks::cc_models(cs),
        )[i] by {
            assert(cs[i] is ClockConstraint);
        }
    }
    let ghost clocks_v = views(clock@);
    out.append(&mut clock);
    assert(views(out@) =~= pins + clocks_v);
    let dma_map = crate::compiler::dma_map_for(config.device.family.as_str());
    let mut dma = crate::compiler::dma::validate(config, &dma_map);
    let ghost before_dma = views(out@);
    let ghost dma_v = views(dma@);
    out.append(&mut dma);
    assert(views(out@) =~= before_dma + dma_v);
    let irq_map = crate::compiler::irq_map_for(config.device.family.as_str());
    let mut irq = crate::compiler::irq::validate(config, &irq_map);
    let ghost before_irq = views(out@);
    let ghost irq_v = views(irq@);
    out.append(&mut irq);
    assert(views(out@) =~= before_irq + irq_v);
    let mut tests = test_conflicts(config, db, parsed);
    let ghost before_tests = views(out@);
    let ghost tests_v = views(tests@);
    out.append(&mut tests);
    assert(views(out@) =~= before_tests + tests_v);
    assert(views(out@) == solve_spec(*config, db@, parsed@, tree));
    out
}


// ---------------------------------------------------------------------------
// Pin collisions
// ---------------------------------------------------------------------------

/// The position of a pin in `PA0, …, PA15, PB0, …, PH15`.
pub open spec fn pin_slot(p: Pin) -> int {
    crate::db::port_index(p.port) * 16 + p.number
}

proof fn lemma_pin_at_slot(n: nat)
    requires
        n < 128,
    ensures
        pin_at(n).number < 16,
        pin_slot(pin_at(n)) == n,
{
    assert(n == 16 * (n / 16) + n % 16 && n % 16 < 16 && n / 16 < 8) by (nonlinear_arith)
        requires
            n < 128,
    ;
}

proof fn lemma_slot_pin_at(p: Pin)
    requires
        p.number < 16,
    ensures
        0 <= pin_slot(p) < 128,
        pin_at(pin_slot(p) as nat) == p,
{
    let n = pin_slot(p);
    let i = crate::db::port_index(p.port);
    assert(n / 16 == i && n % 16 == p.number) by (nonlinear_arith)
        requires
            n == i * 16 + p.number,
            p.number < 16,
            0 <= i,
    ;
}

/// `cs` is a list of collision reports for `uses`, each for a pin below
/// slot `k` that more than one signal uses, naming its users sorted, in
/// strictly ascending pin order.
pub open spec fn collision_reports(uses: Seq<PinUse>, cs: Seq<ConflictView>, k: int) -> bool {
    &&& forall|i: int| 0 <= i < cs.len() ==> {
        &&& (#[trigger] cs[i]) is PinCollision
        &&& cs[i]->PinCollision_pin.number < 16
        &&& pin_slot(cs[i]->PinCollision_pin) < k
        &&& users_of(uses, cs[i]->PinCollision_pin).len() >= 2
        &&& cs[i]->PinCollision_users == sort_pairs(users_of(uses, cs[i]->PinCollision_pin))
    }
    &&& forall|i: int, j: int| 0 <= i < j < cs.len() ==> pin_slot((#[trigger] cs[i])->PinCollision_pin) < pin_slot(
        (#[trigger] cs[j])->PinCollision_pin,
    )
}

proof fn lemma_collisions_upto(uses: Seq<PinUse>, k: nat)
    requires
        k <= 128,
    ensures
        collision_reports(uses, collisions_upto(uses, k), k as int),
        forall|q: Pin| #![trigger users_of(uses, q)] q.number < 16 && pin_slot(q) < k && users_of(uses, q).len() >= 2 ==> exists|i: int|
            0 <= i < collisions_upto(uses, k).len() && (#[trigger] collisions_upto(uses, k)[i]) == (ConflictView::PinCollision {
                pin: q,
                users: sort_pairs(users_of(uses, q)),
            }),
    decreases k,
{
    if k > 0 {
        let k1 = (k - 1) as nat;
        lemma_collisions_upto(uses, k1);
        lemma_pin_at_slot(k1);
        let a = collisions_upto(uses, k1);
        let b = collision_for(uses, pin_at(k1));
        let cs = collisions_upto(uses, k);
        assert(cs == a + b);
        assert forall|i: int| 0 <= i < cs.len() implies {
            &&& (#[trigger] cs[i]) is PinCollision
            &&& cs[i]->PinCollision_pin.number < 16
            &&& pin_slot(cs[i]->PinCollision_pin) < k
            &&& users_of(uses, cs[i]->PinCollision_pin).len() >= 2
            &&& cs[i]->PinCollision_users == sort_pairs(users_of(uses, cs[i]->PinCollision_pin))
        } by {
            if i < a.len() {
                assert(cs[i] == a[i]);
            } else {
                assert(cs[i] == b[i - a.len()]);
            }
        }
        assert forall|i: int, j: int| 0 <= i < j < cs.len() implies pin_slot((#[trigger] cs[i])->PinCollision_pin) < pin_slot(
            (#[trigger] cs[j])->PinCollision_pin,
        ) by {
            if j < a.len() {
                assert(cs[i] == a[i] && cs[j] == a[j]);
            } else if i < a.len() {
                assert(cs[i] == a[i] && cs[j] == b[j - a.len()]);
            } else {
                assert(b.len() <= 1);
            }
        }
        assert forall|q: Pin| #![trigger users_of(uses, q)] q.number < 16 && pin_slot(q) < k && users_of(uses, q).len() >= 2 implies exists|i: int|
            0 <= i < cs.len() && (#[trigger] cs[i]) == (ConflictView::PinCollision {
                pin: q,
                users: sort_pairs(users_of(uses, q)),
            }) by {
            if pin_slot(q) < k1 {
                let i = choose|i: int| 0 <= i < a.len() && (#[trigger] a[i]) == (ConflictView::PinCollision {
                    pin: q,
                    users: sort_pairs(users_of(uses, q)),
                });
                assert(cs[i] == a[i]);
            } else {
                lemma_slot_pin_at(q);
                assert(pin_at(k1) == q);
                assert(cs[a.len() as int] == b[0]);
            }
        }
    }
}

/// The pin-collision reports are exactly the pins more than one signal
/// uses: a report names `pin` (any pin `PA0`–`PH15`) exactly when two or
/// more signals use it, and then lists those users sorted; every report is
/// such a pin, and the reports come in strictly ascending pin order, so no
/// pin is reported twice.
pub proof fn lemma_pin_collisions(uses: Seq<PinUse>, pin: Pin)
    requires
        pin.number < 16,
    ensures
        ({
            let cs = collisions_upto(uses, 128);
            &&& (exists|i: int| 0 <= i < cs.len() && (#[trigger] cs[i]) is PinCollision && cs[i]->PinCollision_pin == pin)
                == (users_of(uses, pin).len() >= 2)
            &&& collision_reports(uses, cs, 128)
        }),
{
    lemma_collisions_upto(uses, 128);
    lemma_slot_pin_at(pin);
    let cs = collisions_upto(uses, 128);
    if users_of(uses, pin).len() >= 2 {
        let i = choose|i: int| 0 <= i < cs.len() && (#[trigger] cs[i]) == (ConflictView::PinCollision {
            pin,
            users: sort_pairs(users_of(uses, pin)),
        });
        assert(cs[i] is PinCollision && cs[i]->PinCollision_pin == pin);
    }
}


/// For a whole configuration: its pin-level conflicts end with one
/// collision report per pin (`PA0`–`PH15`) that two or more of its signals
/// use, in pin order, each naming those signals sorted — and with no other
/// collision report.
pub proof fn lemma_config_pin_collisions(config: Config, db: Seq<AfMapping>, pin: Pin)
    requires
        pin.number < 16,
    ensures
        ({
            let (c, uses) = entries_check(config, db, config.peripherals@);
            let cs = collisions_upto(uses, 128);
            &&& pin_conflicts_spec(config, db) == c + cs
            &&& (exists|i: int| 0 <= i < cs.len() && (#[trigger] cs[i]) is PinCollision && cs[i]->PinCollision_pin == pin)
                == (users_of(uses, pin).len() >= 2)
            &&& collision_reports(uses, cs, 128)
        }),
{
    let (c, uses) = entries_check(config, db, config.peripherals@);
    lemma_pin_collisions(uses, pin);
}


/// The signals one table puts on pins: each role of `roles` whose value
/// names a pin, as `(pin, (peripheral, signal))`, in role order.
pub open spec fn role_uses(
    p: Seq<char>,
    table: Seq<(String, crate::compiler::config::ConfigValue)>,
    roles: Seq<(Seq<char>, Seq<char>, bool)>,
) -> Seq<PinUse>
    decreases roles.len(),
{
    if roles.len() == 0 {
        Seq::empty()
    } else {
        let r = roles.last();
        role_uses(p, table, roles.drop_last()) + match pin_str_spec(table, r.0) {
            Some(v) => match parse_pin_spec(v) {
                Some(pin) => seq![(pin, (p, r.1))],
                None => Seq::empty(),
            },
            None => Seq::empty(),
        }
    }
}

/// The signals a configuration puts on pins: for each `[peripherals.X]`
/// table whose kind (`X` without trailing digits) is modeled and whose
/// peripheral (`X` upper-cased) the database has, each role whose value
/// names a pin, in table and role order.
pub open spec fn config_uses(db: Seq<AfMapping>, entries: Seq<(String, crate::compiler::config::Peripheral)>) -> Seq<PinUse>
    decreases entries.len(),
{
    if entries.len() == 0 {
        Seq::empty()
    } else {
        let e = entries.last();
        config_uses(db, entries.drop_last()) + match kind_roles(strip_trailing_digits(e.0@)) {
            None => Seq::empty(),
            Some(roles) => {
                let p = peripheral_name_spec(e.0@);
                if db_has(db, p) {
                    role_uses(p, e.1.0@, roles)
                } else {
                    Seq::empty()
                }
            },
        }
    }
}

proof fn lemma_roles_check_uses(
    db: Seq<AfMapping>,
    p: Seq<char>,
    table: Seq<(String, crate::compiler::config::ConfigValue)>,
    roles: Seq<(Seq<char>, Seq<char>, bool)>,
)
    ensures
        roles_check(db, p, table, roles).1 == role_uses(p, table, roles),
    decreases roles.len(),
{
    if roles.len() > 0 {
        lemma_roles_check_uses(db, p, table, roles.drop_last());
    }
}

proof fn lemma_entries_check_uses(config: Config, db: Seq<AfMapping>, entries: Seq<(String, crate::compiler::config::Peripheral)>)
    ensures
        entries_check(config, db, entries).1 == config_uses(db, entries),
    decreases entries.len(),
{
    if entries.len() > 0 {
        lemma_entries_check_uses(config, db, entries.drop_last());
        let e = entries.last();
        match kind_roles(strip_trailing_digits(e.0@)) {
            Some(roles) => lemma_roles_check_uses(db, peripheral_name_spec(e.0@), e.1.0@, roles),
            None => {},
        }
    }
}

/// The pin-collision law in the configuration's own terms: with `U(pin)`
/// the `(peripheral, signal)` pairs of the roles whose value names `pin`
/// (in tables of a known kind whose peripheral the database has, in table
/// and role order), the pin-level conflicts end with a collision report
/// for `pin` exactly when `U(pin)` has two or more entries, naming them
/// sorted; every collision report is such a pin, at most one per pin, in
/// ascending pin order.
pub proof fn lemma_pin_collisions_by_roles(config: Config, db: Seq<AfMapping>, pin: Pin)
    requires
        pin.number < 16,
    ensures
        ({
            let uses = config_uses(db, config.peripherals@);
            let cs = collisions_upto(uses, 128);
            &&& pin_conflicts_spec(config, db) == entries_check(config, db, config.peripherals@).0 + cs
            &&& (exists|i: int| 0 <= i < cs.len() && (#[trigger] cs[i]) is PinCollision && cs[i]->PinCollision_pin == pin)
                == (users_of(uses, pin).len() >= 2)
            &&& (users_of(uses, pin).len() >= 2 ==> exists|i: int| 0 <= i < cs.len() && #[trigger] cs[i] == (ConflictView::PinCollision {
                pin,
                users: sort_pairs(users_of(uses, pin)),
            }))
            &&& collision_reports(uses, cs, 128)
        }),
{
    lemma_entries_check_uses(config, db, config.peripherals@);
    let uses = config_uses(db, config.peripherals@);
    lemma_pin_collisions(uses, pin);
    lemma_collisions_upto(uses, 128);
    lemma_slot_pin_at(pin);
}


// ---------------------------------------------------------------------------
// Where collision reports come from
// ---------------------------------------------------------------------------

/// No report of `s` is a pin collision.
pub open spec fn no_pin_collision(s: Seq<ConflictView>) -> bool {
    forall|i: int| 0 <= i < s.len() ==> !((#[trigger] s[i]) is PinCollision)
}

proof fn lemma_no_collision_concat(a: Seq<ConflictView>, b: Seq<ConflictView>)
    requires
        no_pin_collision(a),
        no_pin_collision(b),
    ensures
        no_pin_collision(a + b),
{
    assert forall|i: int| 0 <= i < (a + b).len() implies !((#[trigger] (a + b)[i]) is PinCollision) by {
        if i < a.len() {
            assert((a + b)[i] == a[i]);
        } else {
            assert((a + b)[i] == b[i - a.len()]);
        }
    }
}

proof fn lemma_roles_check_kinds(
    db: Seq<AfMapping>,
    p: Seq<char>,
    table: Seq<(String, crate::compiler::config::ConfigValue)>,
    roles: Seq<(Seq<char>, Seq<char>, bool)>,
)
    ensures
        no_pin_collision(roles_check(db, p, table, roles).0),
    decreases roles.len(),
{
    if roles.len() > 0 {
        lemma_roles_check_kinds(db, p, table, roles.drop_last());
        lemma_no_collision_concat(roles_check(db, p, table, roles.drop_last()).0, role_check(db, p, table, roles.last()).0);
    }
}

proof fn lemma_entries_check_kinds(config: Config, db: Seq<AfMapping>, entries: Seq<(String, crate::compiler::config::Peripheral)>)
    ensures
        no_pin_collision(entries_check(config, db, entries).0),
    decreases entries.len(),
{
    if entries.len() > 0 {
        lemma_entries_check_kinds(config, db, entries.drop_last());
        let e = entries.last();
        match kind_roles(strip_trailing_digits(e.0@)) {
            Some(roles) => {
                let p = peripheral_name_spec(e.0@);
                lemma_roles_check_kinds(db, p, e.1.0@, roles);
                let dom = match peripheral_bus_spec(p) {
                    Some(bus) => if !bus_enabled(config.clocks, bus) {
                        seq![ConflictView::ClockDomainDisabled { peripheral: p, bus }]
                    } else {
                        Seq::empty()
                    },
                    None => Seq::empty(),
                };
                lemma_no_collision_concat(dom, roles_check(db, p, e.1.0@, roles).0);
            },
            None => {},
        }
        lemma_no_collision_concat(entries_check(config, db, entries.drop_last()).0, entry_check(config, db, e).0);
    }
}

proof fn lemma_tests_check_kinds(db: Seq<AfMapping>, ts: Seq<crate::compiler::config::TestCase>, parsed: Seq<Result<AssertionSubject, String>>)
    ensures
        no_pin_collision(tests_check(db, ts, parsed)),
    decreases ts.len(),
{
    if ts.len() > 0 {
        lemma_tests_check_kinds(db, ts.drop_last(), parsed);
        let t = ts.last();
        let node = t.name@;
        let a = if t.script matches Some(sc) && sc@.len() > 0 {
            Seq::<ConflictView>::empty()
        } else {
            invalid_test(node, "scripted test requires a non-empty `script`"@)
        };
        let b = if t.assertion@.len() > 0 {
            invalid_test(node, "scripted test must not set `assertion`"@)
        } else {
            Seq::<ConflictView>::empty()
        };
        lemma_no_collision_concat(a, b);
        lemma_no_collision_concat(a + b, backend_check(t));
        lemma_no_collision_concat(tests_check(db, ts.drop_last(), parsed), test_check(db, t, parsed[ts.len() - 1]));
    }
}

proof fn lemma_dma_kinds(
    rows: Seq<crate::db::dma::DmaRequest>,
    reqs: Seq<(Seq<char>, crate::db::dma::Direction)>,
    occ: Seq<Option<usize>>,
    coll: Seq<Option<(usize, usize)>>,
    k: nat,
)
    ensures
        no_pin_collision(crate::compiler::dma::collisions_upto(rows, reqs, occ, coll, k)),
    decreases k,
{
    if k > 0 {
        lemma_dma_kinds(rows, reqs, occ, coll, (k - 1) as nat);
        lemma_no_collision_concat(
            crate::compiler::dma::collisions_upto(rows, reqs, occ, coll, (k - 1) as nat),
            crate::compiler::dma::collision_at(rows, reqs, occ, coll, k - 1),
        );
    }
}

proof fn lemma_unhandled_kinds(rows: Seq<crate::db::irq::PeripheralIrq>, entries: Seq<(String, crate::compiler::config::Peripheral)>)
    ensures
        no_pin_collision(crate::compiler::irq::unhandled_spec(rows, entries)),
    decreases entries.len(),
{
    if entries.len() > 0 {
        lemma_unhandled_kinds(rows, entries.drop_last());
        let e = entries.last();
        let p = peripheral_name_spec(e.0@);
        let tail = if crate::compiler::irq::irq_enabled(e.1.0@) && !crate::compiler::irq::map_has(rows, p) {
            seq![crate::compiler::irq::irq_conflict(p, p + " has `irq = true` but no NVIC vector is modeled for it on this family"@, Severity::Error)]
        } else {
            Seq::empty()
        };
        lemma_no_collision_concat(crate::compiler::irq::unhandled_spec(rows, entries.drop_last()), tail);
    }
}

proof fn lemma_invalid_exti_kinds(exti: Seq<crate::compiler::config::ExtiPin>)
    ensures
        no_pin_collision(crate::compiler::irq::invalid_exti_spec(exti)),
    decreases exti.len(),
{
    if exti.len() > 0 {
        lemma_invalid_exti_kinds(exti.drop_last());
        let e = exti.last();
        let tail = if parse_pin_spec(e.pin@) is None {
            seq![crate::compiler::irq::irq_conflict(e.pin@, "invalid EXTI pin "@ + str_debug_spec(e.pin@) + ": not a valid pin name"@, Severity::Error)]
        } else {
            Seq::empty()
        };
        lemma_no_collision_concat(crate::compiler::irq::invalid_exti_spec(exti.drop_last()), tail);
    }
}

proof fn lemma_lines_kinds(exti: Seq<crate::compiler::config::ExtiPin>, n: nat)
    ensures
        no_pin_collision(crate::compiler::irq::line_collisions_upto(exti, n)),
    decreases n,
{
    if n > 0 {
        lemma_lines_kinds(exti, (n - 1) as nat);
        lemma_no_collision_concat(
            crate::compiler::irq::line_collisions_upto(exti, (n - 1) as nat),
            crate::compiler::irq::line_collision(exti, (n - 1) as u8),
        );
    }
}

proof fn lemma_inversions_kinds(entries: Seq<(String, crate::compiler::config::Peripheral)>)
    ensures
        no_pin_collision(crate::compiler::irq::inversions_spec(entries)),
    decreases entries.len(),
{
    if entries.len() > 0 {
        lemma_inversions_kinds(entries.drop_last());
        let s = crate::compiler::irq::inversions_spec(entries);
        let a = crate::compiler::irq::inversions_spec(entries.drop_last());
        assert(s.subrange(0, a.len() as int) =~= a);
        assert forall|i: int| 0 <= i < s.len() implies !((#[trigger] s[i]) is PinCollision) by {
            if i < a.len() {
                assert(s[i] == a[i]);
            }
        }
    }
}

proof fn lemma_exti_inversions_one_kinds(e: crate::compiler::config::ExtiPin, entries: Seq<(String, crate::compiler::config::Peripheral)>)
    ensures
        no_pin_collision(crate::compiler::irq::exti_inversions_one(e, entries)),
    decreases entries.len(),
{
    if entries.len() > 0 {
        lemma_exti_inversions_one_kinds(e, entries.drop_last());
        lemma_no_collision_concat(
            crate::compiler::irq::exti_inversions_one(e, entries.drop_last()),
            crate::compiler::irq::exti_inversion_one(e, entries.last()),
        );
    }
}

proof fn lemma_exti_inversions_kinds(exti: Seq<crate::compiler::config::ExtiPin>, entries: Seq<(String, crate::compiler::config::Peripheral)>)
    ensures
        no_pin_collision(crate::compiler::irq::exti_inversions_spec(exti, entries)),
    decreases exti.len(),
{
    if exti.len() > 0 {
        lemma_exti_inversions_kinds(exti.drop_last(), entries);
        lemma_exti_inversions_one_kinds(exti.last(), entries);
        lemma_no_collision_concat(
            crate::compiler::irq::exti_inversions_spec(exti.drop_last(), entries),
            crate::compiler::irq::exti_inversions_one(exti.last(), entries),
        );
    }
}

/// Only the pin-level collision section of the solver's output reports pin
/// collisions: the solver's whole output is the pin-level conflicts, then
/// reports none of which is a pin collision.
proof fn lemma_solve_collisions_section(
    config: Config,
    db: Seq<AfMapping>,
    parsed: Seq<Result<AssertionSubject, String>>,
    t: crate::db::clock::ClockTree,
) -> (rest: Seq<ConflictView>)
    ensures
        solve_spec(config, db, parsed, t) == pin_conflicts_spec(config, db) + rest,
        no_pin_collision(rest),
{
    let family = config.device.family@;
    let cv = clock_views(crate::compiler::clocks::validate_spec(config, t));
    assert(no_pin_collision(cv));
    let rows = family_dma_rows(family);
    let reqs = crate::compiler::dma::all_requests(rows, config.peripherals@);
    let (occ, coll) = crate::compiler::dma::assign_upto(rows, reqs, reqs.len());
    lemma_dma_kinds(rows, reqs, occ, coll, 512);
    let dv = crate::compiler::dma::dma_conflicts_spec(config, rows);
    let irows = family_irq_rows(family);
    lemma_unhandled_kinds(irows, config.peripherals@);
    lemma_invalid_exti_kinds(config.exti@);
    lemma_lines_kinds(config.exti@, 16);
    lemma_inversions_kinds(config.peripherals@);
    lemma_exti_inversions_kinds(config.exti@, config.peripherals@);
    lemma_no_collision_concat(crate::compiler::irq::invalid_exti_spec(config.exti@), crate::compiler::irq::line_collisions_upto(config.exti@, 16));
    let u = crate::compiler::irq::unhandled_spec(irows, config.peripherals@);
    let x = crate::compiler::irq::invalid_exti_spec(config.exti@) + crate::compiler::irq::line_collisions_upto(config.exti@, 16);
    lemma_no_collision_concat(u, x);
    lemma_no_collision_concat(u + x, crate::compiler::irq::inversions_spec(config.peripherals@));
    lemma_no_collision_concat(
        u + x + crate::compiler::irq::inversions_spec(config.peripherals@),
        crate::compiler::irq::exti_inversions_spec(config.exti@, config.peripherals@),
    );
    let iv = crate::compiler::irq::irq_conflicts_spec(config, irows);
    lemma_tests_check_kinds(db, config.test@, parsed);
    let tv = tests_check(db, config.test@, parsed);
    lemma_no_collision_concat(cv, dv);
    lemma_no_collision_concat(cv + dv, iv);
    lemma_no_collision_concat(cv + dv + iv, tv);
    let rest = cv + dv + iv + tv;
    assert(solve_spec(config, db, parsed, t) =~= pin_conflicts_spec(config, db) + rest);
    rest
}

/// The pin-collision law for the solver's whole output, in the
/// configuration's own terms: with `U(pin)` the `(peripheral, signal)`
/// pairs of the roles whose value names `pin` ([`config_uses`]), the solver
/// reports a collision on `pin` exactly when `U(pin)` has two or more
/// entries, and then exactly one, naming them sorted.
pub proof fn lemma_solve_pin_collisions(
    config: Config,
    db: Seq<AfMapping>,
    parsed: Seq<Result<AssertionSubject, String>>,
    t: crate::db::clock::ClockTree,
    pin: Pin,
)
    requires
        pin.number < 16,
    ensures
        ({
            let out = solve_spec(config, db, parsed, t);
            let us = users_of(config_uses(db, config.peripherals@), pin);
            &&& (exists|i: int| 0 <= i < out.len() && (#[trigger] out[i]) is PinCollision && out[i]->PinCollision_pin == pin)
                == (us.len() >= 2)
            &&& forall|i: int| 0 <= i < out.len() && (#[trigger] out[i]) is PinCollision && out[i]->PinCollision_pin == pin
                ==> out[i]->PinCollision_users == sort_pairs(us)
            &&& forall|i: int, j: int| 0 <= i < j < out.len() && (#[trigger] out[i]) is PinCollision && (#[trigger] out[j]) is PinCollision
                ==> out[i]->PinCollision_pin != out[j]->PinCollision_pin
        }),
{
    let rest = lemma_solve_collisions_section(config, db, parsed, t);
    lemma_pin_collisions_by_roles(config, db, pin);
    lemma_entries_check_kinds(config, db, config.peripherals@);
    let uses = config_uses(db, config.peripherals@);
    let c = entries_check(config, db, config.peripherals@).0;
    let cs = collisions_upto(uses, 128);
    let out = solve_spec(config, db, parsed, t);
    assert(out == c + cs + rest);
    assert forall|i: int| 0 <= i < out.len() && (#[trigger] out[i]) is PinCollision implies
        c.len() <= i < c.len() + cs.len() && out[i] == cs[i - c.len()] by {
        if i < c.len() {
            assert(out[i] == c[i]);
        } else if i >= c.len() + cs.len() {
            assert(out[i] == rest[i - c.len() - cs.len()]);
        } else {
            assert(out[i] == cs[i - c.len()]);
        }
    }
    if users_of(uses, pin).len() >= 2 {
        let k = choose|k: int| 0 <= k < cs.len() && (#[trigger] cs[k]) is PinCollision && cs[k]->PinCollision_pin == pin;
        assert(out[c.len() + k] == cs[k]);
    }
    assert forall|i: int, j: int| 0 <= i < j < out.len() && (#[trigger] out[i]) is PinCollision && (#[trigger] out[j]) is PinCollision
        implies out[i]->PinCollision_pin != out[j]->PinCollision_pin by {
        let a = i - c.len();
        let b = j - c.len();
        assert(pin_slot(cs[a]->PinCollision_pin) < pin_slot(cs[b]->PinCollision_pin));
    }
}

} // verus!
