//! The STM32 constraint database: a normalized pin ↔ alternate-function ↔
//! peripheral model and the lookups the compiler builds on, plus the
//! clock-tree, DMA request and IRQ vector models of each supported family.

use vstd::prelude::*;
use crate::text::{dec_digits, owned, str_eq, u64_to_string};

pub mod clock;
pub mod data;
pub mod dma;
pub mod irq;
pub mod pack;

verus! {

/// A GPIO port on the device.
#[derive(Debug, Clone, Copy, PartialEq, Eq, Hash, PartialOrd, Ord, Structural)]
pub enum Port {
    A,
    B,
    C,
    D,
    E,
    F,
    G,
    H,
}

/// The position of a port in `A..=H`.
pub open spec fn port_index(p: Port) -> nat {
    match p {
        Port::A => 0,
        Port::B => 1,
        Port::C => 2,
        Port::D => 3,
        Port::E => 4,
        Port::F => 5,
        Port::G => 6,
        Port::H => 7,
    }
}

/// The upper-case letter naming a port.
pub open spec fn port_letter(p: Port) -> char {
    match p {
        Port::A => 'A',
        Port::B => 'B',
        Port::C => 'C',
        Port::D => 'D',
        Port::E => 'E',
        Port::F => 'F',
        Port::G => 'G',
        Port::H => 'H',
    }
}

/// The port named by a letter, upper or lower case.
pub open spec fn port_of_letter(c: char) -> Option<Port> {
    if c == 'A' || c == 'a' {
        Some(Port::A)
    } else if c == 'B' || c == 'b' {
        Some(Port::B)
    } else if c == 'C' || c == 'c' {
        Some(Port::C)
    } else if c == 'D' || c == 'd' {
        Some(Port::D)
    } else if c == 'E' || c == 'e' {
        Some(Port::E)
    } else if c == 'F' || c == 'f' {
        Some(Port::F)
    } else if c == 'G' || c == 'g' {
        Some(Port::G)
    } else if c == 'H' || c == 'h' {
        Some(Port::H)
    } else {
        None
    }
}

impl Port {
    /// The port's letter, e.g. `Port::A` → `'A'`.
    pub fn letter(self) -> (c: char)
        ensures
            c == port_letter(self),
    {
        match self {
            Port::A => 'A',
            Port::B => 'B',
            Port::C => 'C',
            Port::D => 'D',
            Port::E => 'E',
            Port::F => 'F',
            Port::G => 'G',
            Port::H => 'H',
        }
    }

    /// The port's letter as a one-character string.
    pub fn letter_str(self) -> (s: &'static str)
        ensures
            s@ == seq![port_letter(self)],
    {
        proof {
            reveal_strlit("A");
            reveal_strlit("B");
            reveal_strlit("C");
            reveal_strlit("D");
            reveal_strlit("E");
            reveal_strlit("F");
            reveal_strlit("G");
            reveal_strlit("H");
        }
        match self {
            Port::A => "A",
            Port::B => "B",
            Port::C => "C",
            Port::D => "D",
            Port::E => "E",
            Port::F => "F",
            Port::G => "G",
            Port::H => "H",
        }
    }

    /// The port named by `c` (either case), if any.
    pub fn from_letter(c: char) -> (r: Option<Port>)
        ensures
            r == port_of_letter(c),
    {
        if c == 'A' || c == 'a' {
            Some(Port::A)
        } else if c == 'B' || c == 'b' {
            Some(Port::B)
        } else if c == 'C' || c == 'c' {
            Some(Port::C)
        } else if c == 'D' || c == 'd' {
            Some(Port::D)
        } else if c == 'E' || c == 'e' {
            Some(Port::E)
        } else if c == 'F' || c == 'f' {
            Some(Port::F)
        } else if c == 'G' || c == 'g' {
            Some(Port::G)
        } else if c == 'H' || c == 'h' {
            Some(Port::H)
        } else {
            None
        }
    }

    /// The position of the port in `A..=H`.
    pub fn index(self) -> (i: u8)
        ensures
            i as nat == port_index(self),
    {
        match self {
            Port::A => 0,
            Port::B => 1,
            Port::C => 2,
            Port::D => 3,
            Port::E => 4,
            Port::F => 5,
            Port::G => 6,
            Port::H => 7,
        }
    }
}

/// A physical pin, e.g. `PA7` is `Port::A` pin `7`.
#[derive(Debug, Clone, Copy, PartialEq, Eq, Hash, PartialOrd, Ord, Structural)]
pub struct Pin {
    pub port: Port,
    pub number: u8,
}

/// The total order on pins (port first, then number), as an integer key.
pub open spec fn pin_key(p: Pin) -> int {
    port_index(p.port) * 256 + p.number
}

/// A sequence of pins in strictly increasing order: sorted, no duplicates.
pub open spec fn strictly_sorted(s: Seq<Pin>) -> bool {
    forall|i: int, j: int| 0 <= i < j < s.len() ==> pin_key(#[trigger] s[i]) < pin_key(#[trigger] s[j])
}

/// The rendered name of a pin, e.g. `PA7`.
pub open spec fn pin_name(p: Pin) -> Seq<char> {
    seq!['P', port_letter(p.port)] + dec_digits(p.number as nat)
}

/// Whether `c` is an ASCII decimal digit.
pub open spec fn is_digit(c: char) -> bool {
    '0' <= c && c <= '9'
}

/// The value of an ASCII digit.
pub open spec fn digit_value(c: char) -> nat {
    (c as nat - '0' as nat) as nat
}

/// Whether every character of `t` is a decimal digit.
pub open spec fn all_digits(t: Seq<char>) -> bool {
    forall|i: int| 0 <= i < t.len() ==> is_digit(#[trigger] t[i])
}

/// The decimal value of a digit string, most significant digit first.
pub open spec fn digits_value(t: Seq<char>) -> nat
    decreases t.len(),
{
    if t.len() == 0 {
        0
    } else {
        digits_value(t.drop_last()) * 10 + digit_value(t.last())
    }
}

/// What `u8`'s decimal `FromStr` accepts: an optional `+`, then at least one
/// digit, with a value that fits in a byte.
pub open spec fn parse_u8_spec(t: Seq<char>) -> Option<nat> {
    let body = if t.len() > 0 && t[0] == '+' { t.skip(1) } else { t };
    if body.len() > 0 && all_digits(body) && digits_value(body) <= 255 {
        Some(digits_value(body))
    } else {
        None
    }
}

/// What a pin name parses to: `P`/`p`, a port letter in either case, then a
/// pin number `0..=15` in the syntax `u8` parsing accepts.
pub open spec fn parse_pin_spec(s: Seq<char>) -> Option<Pin> {
    if s.len() >= 2 && (s[0] == 'P' || s[0] == 'p') && port_of_letter(s[1]) is Some {
        match parse_u8_spec(s.skip(2)) {
            Some(n) => if n <= 15 {
                Some(Pin { port: port_of_letter(s[1])->0, number: n as u8 })
            } else {
                None
            },
            None => None,
        }
    } else {
        None
    }
}

/// Error returned when a string cannot be parsed as a [`Pin`]; holds the input.
#[derive(Debug, Clone, PartialEq, Eq)]
pub struct ParsePinError(pub String);

impl ParsePinError {
    /// The human-readable message, e.g. `invalid pin name: "PZ1" (expected e.g. "PA7")`.
    pub fn to_string(&self) -> (r: String)
        ensures
            r@ == "invalid pin name: \""@ + self.0@ + "\" (expected e.g. \"PA7\")"@,
    {
        let mut r = String::from_str("invalid pin name: \"");
        r.append(self.0.as_str());
        r.append("\" (expected e.g. \"PA7\")");
        r
    }
}

/// Digits-with-saturation: the decimal value of `t`, capped at 1000.
pub(crate) fn capped_digits_value(s: &str, from: usize) -> (r: Option<u32>)
    requires
        from <= s@.len(),
    ensures
        r is Some <==> (s@.skip(from as int).len() > 0 && all_digits(s@.skip(from as int))),
        r matches Some(v) ==> (v as nat == if digits_value(s@.skip(from as int)) < 1000 {
            digits_value(s@.skip(from as int))
        } else {
            1000
        }),
{
    let n = s.unicode_len();
    if from >= n {
        return None;
    }
    let ghost t = s@.skip(from as int);
    let mut acc: u32 = 0;
    let mut i: usize = from;
    while i < n
        invariant
            n == s@.len(),
            from <= i <= n,
            from < n,
            t == s@.skip(from as int),
            all_digits(t.take(i - from)),
            acc as nat == if digits_value(t.take(i - from)) < 1000 {
                digits_value(t.take(i - from))
            } else {
                1000
            },
        decreases n - i,
    {
        let c = s.get_char(i);
        if !('0' <= c && c <= '9') {
            assert(t[i - from] == c);
            return None;
        }
        let d = (c as u32) - ('0' as u32);
        proof {
            let k = (i - from) as int;
            assert(t.take(k + 1).drop_last() =~= t.take(k));
            assert(t.take(k + 1).last() == c);
            assert forall|j: int| 0 <= j < k + 1 implies is_digit(#[trigger] t.take(k + 1)[j]) by {
                if j < k {
                    assert(t.take(k + 1)[j] == t.take(k)[j]);
                }
            }
        }
        if acc >= 1000 || acc * 10 + d >= 1000 {
            acc = 1000;
        } else {
            acc = acc * 10 + d;
        }
        i += 1;
    }
    assert(t.take(n - from) =~= t);
    Some(acc)
}

impl Pin {
    /// The pin `port`/`number`. Numbers above 15 name no pin, the same rule
    /// parsing applies.
    pub fn new(port: Port, number: u8) -> (p: Pin)
        requires
            number <= 15,
        ensures
            p == (Pin { port, number }),
    {
        let checked: Option<u8> = if number <= 15 { Some(number) } else { None };
        let number = checked.expect("pin number out of range (0..=15)");
        Pin { port, number }
    }

    /// Parse a pin name such as `"PA7"` or `"pc13"`.
    pub fn parse(s: &str) -> (r: Result<Pin, ParsePinError>)
        ensures
            match r {
                Ok(p) => parse_pin_spec(s@) == Some(p),
                Err(e) => parse_pin_spec(s@) is None && e.0@ == s@,
            },
    {
        let n = s.unicode_len();
        if n < 2 {
            return Err(ParsePinError(owned(s)));
        }
        let c0 = s.get_char(0);
        if !(c0 == 'P' || c0 == 'p') {
            return Err(ParsePinError(owned(s)));
        }
        let port = match Port::from_letter(s.get_char(1)) {
            Some(port) => port,
            None => return Err(ParsePinError(owned(s))),
        };
        let ghost rest = s@.skip(2);
        let from: usize = if n > 2 && s.get_char(2) == '+' { 3 } else { 2 };
        proof {
            if from == 3 {
                assert(rest.skip(1) =~= s@.skip(3));
            }
        }
        match capped_digits_value(s, from) {
            Some(v) => {
                if v <= 15 {
                    Ok(Pin { port, number: v as u8 })
                } else {
                    Err(ParsePinError(owned(s)))
                }
            },
            None => Err(ParsePinError(owned(s))),
        }
    }

    /// The pin's name, e.g. `PA7`.
    pub fn to_string(&self) -> (r: String)
        ensures
            r@ == pin_name(*self),
    {
        proof {
            reveal_strlit("P");
        }
        let mut r = String::from_str("P");
        r.append(self.port.letter_str());
        let digits = u64_to_string(self.number as u64);
        r.append(digits.as_str());
        r
    }

    /// The ordering key of this pin: port first, then number.
    pub fn key(&self) -> (k: u16)
        ensures
            k as int == pin_key(*self),
    {
        (self.port.index() as u16) * 256 + self.number as u16
    }
}

/// One alternate-function mapping: a [`Pin`] driving a peripheral signal at a
/// given AF number (AF0–AF15).
#[derive(Debug, Clone, Copy, PartialEq, Eq)]
pub struct AfMapping {
    pub pin: Pin,
    pub af: u8,
    /// Peripheral instance, e.g. `"SPI1"`.
    pub peripheral: &'static str,
    /// Signal on that peripheral, e.g. `"MOSI"`.
    pub signal: &'static str,
}

/// Whether mapping `m` connects `peripheral`'s `signal`.
pub open spec fn carries(m: AfMapping, peripheral: Seq<char>, signal: Seq<char>) -> bool {
    m.peripheral@ == peripheral && m.signal@ == signal
}

/// A queryable constraint database for a single device.
#[derive(Debug, Clone, Copy)]
pub struct Database {
    entries: &'static [AfMapping],
}

impl View for Database {
    type V = Seq<AfMapping>;

    closed spec fn view(&self) -> Seq<AfMapping> {
        self.entries@
    }
}

/// Insert `p` into the strictly sorted `v`, keeping it strictly sorted.
fn insert_sorted(v: &mut Vec<Pin>, p: Pin)
    requires
        strictly_sorted(old(v)@),
    ensures
        strictly_sorted(final(v)@),
        forall|q: Pin| final(v)@.contains(q) <==> (old(v)@.contains(q) || q == p),
{
    let k = p.key();
    let mut i: usize = 0;
    while i < v.len()
        invariant
            strictly_sorted(v@),
            v@ == old(v)@,
            0 <= i <= v@.len(),
            k as int == pin_key(p),
            forall|j: int| 0 <= j < i ==> pin_key(#[trigger] v@[j]) < pin_key(p),
        ensures
            strictly_sorted(v@),
            v@ == old(v)@,
            0 <= i <= v@.len(),
            forall|j: int| 0 <= j < i ==> pin_key(#[trigger] v@[j]) < pin_key(p),
            i < v@.len() ==> pin_key(v@[i as int]) > pin_key(p),
        decreases v@.len() - i,
    {
        let ki = v[i].key();
        if ki == k {
            proof {
                let q = v@[i as int];
                assert(q.port == p.port && q.number == p.number) by {
                    assert(port_index(q.port) == port_index(p.port));
                }
                assert forall|r: Pin| v@.contains(r) <==> (old(v)@.contains(r) || r == p) by {
                    if r == p {
                        assert(v@[i as int] == r);
                    }
                }
            }
            return;
        }
        if ki > k {
            break;
        }
        i += 1;
    }
    let ghost old_v = v@;
    v.insert(i, p);
    proof {
        assert(v@ == old_v.insert(i as int, p));
        assert forall|a: int, b: int| 0 <= a < b < v@.len() implies pin_key(#[trigger] v@[a]) < pin_key(#[trigger] v@[b]) by {
            if a < i && b < i {
            } else if a < i && b == i {
            } else if a < i && b > i {
                assert(v@[b] == old_v[b - 1]);
                if i < old_v.len() {
                    assert(pin_key(old_v[i as int]) > pin_key(p));
                }
            } else if a == i {
                assert(v@[b] == old_v[b - 1]);
                assert(pin_key(old_v[i as int]) > pin_key(p));
                if b - 1 > i {
                    assert(pin_key(old_v[i as int]) < pin_key(old_v[b - 1]));
                }
            } else {
                assert(v@[a] == old_v[a - 1]);
                assert(v@[b] == old_v[b - 1]);
            }
        }
        assert forall|q: Pin| v@.contains(q) <==> (old_v.contains(q) || q == p) by {
            if old_v.contains(q) {
                let j = choose|j: int| 0 <= j < old_v.len() && old_v[j] == q;
                if j < i {
                    assert(v@[j] == q);
                } else {
                    assert(v@[j + 1] == q);
                }
            }
            if q == p {
                assert(v@[i as int] == p);
            }
            if v@.contains(q) {
                let j = choose|j: int| 0 <= j < v@.len() && v@[j] == q;
                if j < i {
                    assert(old_v[j] == q);
                } else if j > i {
                    assert(old_v[j - 1] == q);
                }
            }
        }
    }
}

impl Database {
    /// The hand-verified database for the NUCLEO-F446RE's STM32F446RE.
    pub fn f446re() -> (db: Database)
        ensures
            db@ == data::f446re_table(),
    {
        Database { entries: data::f446re_entries() }
    }

    /// The database for the NUCLEO-F411RE's STM32F411RE.
    pub fn f411re() -> (db: Database)
        ensures
            db@ == data::f411re_table(),
    {
        Database { entries: data::f411re_entries() }
    }

    /// Whether this device exposes `peripheral` at all (any AF mapping names it).
    pub fn has_peripheral(&self, peripheral: &str) -> (r: bool)
        ensures
            r == exists|i: int| 0 <= i < self@.len() && (#[trigger] self@[i]).peripheral@ == peripheral@,
    {
        let mut i: usize = 0;
        while i < self.entries.len()
            invariant
                0 <= i <= self@.len(),
                self@ == self.entries@,
                forall|j: int| 0 <= j < i ==> (#[trigger] self@[j]).peripheral@ != peripheral@,
            decreases self@.len() - i,
        {
            if str_eq(self.entries[i].peripheral, peripheral) {
                assert(self@[i as int].peripheral@ == peripheral@);
                return true;
            }
            i += 1;
        }
        false
    }

    /// Every mapping for `pin` at alternate function `af`, in table order.
    /// One (pin, AF) can carry several signals (SPI and I2S share AF numbers).
    pub fn lookup(&self, pin: Pin, af: u8) -> (r: Vec<AfMapping>)
        ensures
            r@ == self@.filter(|m: AfMapping| m.pin == pin && m.af == af),
    {
        let ghost pred = |m: AfMapping| m.pin == pin && m.af == af;
        let mut r: Vec<AfMapping> = Vec::new();
        let mut i: usize = 0;
        while i < self.entries.len()
            invariant
                0 <= i <= self@.len(),
                self@ == self.entries@,
                pred == (|m: AfMapping| m.pin == pin && m.af == af),
                r@ == self@.take(i as int).filter(pred),
            decreases self@.len() - i,
        {
            let m = self.entries[i];
            proof {
                reveal_with_fuel(Seq::<_>::filter, 1);
                assert(self@.take(i + 1).drop_last() =~= self@.take(i as int));
            }
            if m.pin == pin && m.af == af {
                r.push(m);
            }
            i += 1;
        }
        assert(self@.take(self@.len() as int) =~= self@);
        r
    }

    /// Every alternate-function mapping available on `pin`, in table order.
    pub fn alt_functions(&self, pin: Pin) -> (r: Vec<AfMapping>)
        ensures
            r@ == self@.filter(|m: AfMapping| m.pin == pin),
    {
        let ghost pred = |m: AfMapping| m.pin == pin;
        let mut r: Vec<AfMapping> = Vec::new();
        let mut i: usize = 0;
        while i < self.entries.len()
            invariant
                0 <= i <= self@.len(),
                self@ == self.entries@,
                pred == (|m: AfMapping| m.pin == pin),
                r@ == self@.take(i as int).filter(pred),
            decreases self@.len() - i,
        {
            let m = self.entries[i];
            proof {
                reveal_with_fuel(Seq::<_>::filter, 1);
                assert(self@.take(i + 1).drop_last() =~= self@.take(i as int));
            }
            if m.pin == pin {
                r.push(m);
            }
            i += 1;
        }
        assert(self@.take(self@.len() as int) =~= self@);
        r
    }

    /// Every physical pin that has at least one alternate function, sorted
    /// and deduplicated.
    pub fn pins(&self) -> (r: Vec<Pin>)
        ensures
            strictly_sorted(r@),
            forall|p: Pin| r@.contains(p) <==> exists|i: int| 0 <= i < self@.len() && (#[trigger] self@[i]).pin == p,
    {
        let mut r: Vec<Pin> = Vec::new();
        let mut i: usize = 0;
        while i < self.entries.len()
            invariant
                0 <= i <= self@.len(),
                self@ == self.entries@,
                strictly_sorted(r@),
                forall|p: Pin| r@.contains(p) <==> exists|j: int| 0 <= j < i && (#[trigger] self@[j]).pin == p,
            decreases self@.len() - i,
        {
            let m = self.entries[i];
            let ghost before = r@;
            insert_sorted(&mut r, m.pin);
            proof {
                assert forall|p: Pin| r@.contains(p) <==> exists|j: int| 0 <= j < i + 1 && (#[trigger] self@[j]).pin == p by {
                    if p == m.pin {
                        assert(self@[i as int].pin == p);
                    }
                    if exists|j: int| 0 <= j < i + 1 && (#[trigger] self@[j]).pin == p {
                        let j = choose|j: int| 0 <= j < i + 1 && (#[trigger] self@[j]).pin == p;
                        if j < i {
                            assert(before.contains(p));
                        }
                    }
                }
            }
            i += 1;
        }
        r
    }

    /// Reverse lookup: the AF number of the first mapping (in table order)
    /// that connects `pin` to `peripheral`'s `signal`, if any.
    pub fn find_af(&self, pin: Pin, peripheral: &str, signal: &str) -> (r: Option<u8>)
        ensures
            match r {
                Some(af) => exists|i: int|
                    0 <= i < self@.len() && (#[trigger] self@[i]).pin == pin && carries(self@[i], peripheral@, signal@)
                        && self@[i].af == af && forall|j: int| 0 <= j < i ==> !((#[trigger] self@[j]).pin == pin && carries(self@[j], peripheral@, signal@)),
                None => forall|i: int| 0 <= i < self@.len() ==> !((#[trigger] self@[i]).pin == pin && carries(self@[i], peripheral@, signal@)),
            },
    {
        let mut i: usize = 0;
        while i < self.entries.len()
            invariant
                0 <= i <= self@.len(),
                self@ == self.entries@,
                forall|j: int| 0 <= j < i ==> !((#[trigger] self@[j]).pin == pin && carries(self@[j], peripheral@, signal@)),
            decreases self@.len() - i,
        {
            let m = self.entries[i];
            if m.pin == pin && str_eq(m.peripheral, peripheral) && str_eq(m.signal, signal) {
                assert(self@[i as int].pin == pin && carries(self@[i as int], peripheral@, signal@));
                return Some(m.af);
            }
            i += 1;
        }
        None
    }

    /// The pins that carry `peripheral`'s `signal`, sorted and deduplicated;
    /// empty when the family does not model the signal.
    pub fn candidate_pins(&self, peripheral: &str, signal: &str) -> (r: Vec<Pin>)
        ensures
            strictly_sorted(r@),
            forall|p: Pin| r@.contains(p) <==> exists|i: int|
                0 <= i < self@.len() && (#[trigger] self@[i]).pin == p && carries(self@[i], peripheral@, signal@),
    {
        let mut r: Vec<Pin> = Vec::new();
        let mut i: usize = 0;
        while i < self.entries.len()
            invariant
                0 <= i <= self@.len(),
                self@ == self.entries@,
                strictly_sorted(r@),
                forall|p: Pin| r@.contains(p) <==> exists|j: int|
                    0 <= j < i && (#[trigger] self@[j]).pin == p && carries(self@[j], peripheral@, signal@),
            decreases self@.len() - i,
        {
            let m = self.entries[i];
            if str_eq(m.peripheral, peripheral) && str_eq(m.signal, signal) {
                let ghost before = r@;
                insert_sorted(&mut r, m.pin);
                proof {
                    assert forall|p: Pin| r@.contains(p) <==> exists|j: int|
                        0 <= j < i + 1 && (#[trigger] self@[j]).pin == p && carries(self@[j], peripheral@, signal@) by {
                        if p == m.pin {
                            assert(self@[i as int].pin == p && carries(self@[i as int], peripheral@, signal@));
                        }
                        if exists|j: int| 0 <= j < i + 1 && (#[trigger] self@[j]).pin == p && carries(self@[j], peripheral@, signal@) {
                            let j = choose|j: int| 0 <= j < i + 1 && (#[trigger] self@[j]).pin == p && carries(self@[j], peripheral@, signal@);
                            if j < i {
                                assert(before.contains(p));
                            }
                        }
                    }
                }
            } else {
                proof {
                    assert forall|p: Pin| r@.contains(p) <==> exists|j: int|
                        0 <= j < i + 1 && (#[trigger] self@[j]).pin == p && carries(self@[j], peripheral@, signal@) by {
                        if exists|j: int| 0 <= j < i + 1 && (#[trigger] self@[j]).pin == p && carries(self@[j], peripheral@, signal@) {
                            let j = choose|j: int| 0 <= j < i + 1 && (#[trigger] self@[j]).pin == p && carries(self@[j], peripheral@, signal@);
                            assert(j < i);
                        }
                    }
                }
            }
            i += 1;
        }
        r
    }
}

impl std::str::FromStr for Pin {
    type Err = ParsePinError;

    fn from_str(s: &str) -> (r: Result<Pin, ParsePinError>)
        ensures
            match r {
                Ok(p) => parse_pin_spec(s@) == Some(p),
                Err(e) => parse_pin_spec(s@) is None && e.0@ == s@,
            },
    {
        Pin::parse(s)
    }
}

} // verus!
