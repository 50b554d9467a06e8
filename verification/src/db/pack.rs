//! ST's open pin data (the CubeMX XML files) turned into the normalized
//! pin ↔ AF ↔ peripheral model: the mappings read from a GPIO modes file,
//! the pins a package actually bonds out, the patch table for known
//! anomalies, and the sorted, deduplicated table the database is built from.

use vstd::prelude::*;
use vstd::string::*;
use crate::db::{capped_digits_value, parse_u8_spec};
use crate::text::{str_debug, str_debug_spec};
use crate::text::{dec_digits, lemma_seq_lt_total, lemma_seq_lt_transitive, owned, seq_lt, str_eq, str_lt, u64_to_string};

verus! {

/// One raw mapping read from a GPIO modes file.
#[derive(Debug, Clone, PartialEq, Eq)]
pub struct RawMapping {
    /// Pin name, e.g. `"PA7"`.
    pub pin: String,
    /// Alternate function number, 0–15.
    pub af: u8,
    /// Peripheral instance, e.g. `"SPI1"`.
    pub peripheral: String,
    /// Signal on that peripheral, e.g. `"MOSI"`.
    pub signal: String,
}

/// A mapping as plain values: pin, AF, peripheral, signal.
pub open spec fn raw_view(m: RawMapping) -> (Seq<char>, u8, Seq<char>, Seq<char>) {
    (m.pin@, m.af, m.peripheral@, m.signal@)
}

/// The mappings of `ms` as plain values.
pub open spec fn raws(ms: Seq<RawMapping>) -> Seq<(Seq<char>, u8, Seq<char>, Seq<char>)> {
    ms.map_values(|m: RawMapping| raw_view(m))
}

/// Pack data that is not shaped like ST's pin data files.
#[derive(Debug, Clone, PartialEq, Eq)]
pub enum PackError {
    Malformed(String),
}

impl PackError {
    /// The error's message.
    pub fn to_string(&self) -> (s: String)
        ensures
            s@ == "malformed pack data: "@ + self->Malformed_0@,
    {
        match self {
            PackError::Malformed(what) => {
                let mut s = String::from_str("malformed pack data: ");
                s.append(what.as_str());
                s
            },
        }
    }
}

/// A recorded correction to the upstream pin data, keyed by the exact
/// mapping it concerns.
#[derive(Debug, Clone, Copy)]
pub enum Patch {
    /// Drop an upstream mapping that is wrong for the device.
    Remove {
        pin: &'static str,
        af: u8,
        peripheral: &'static str,
        signal: &'static str,
        reason: &'static str,
    },
    /// Add a mapping missing from the upstream data.
    Add { pin: &'static str, af: u8, peripheral: &'static str, signal: &'static str, reason: &'static str },
}

/// The mapping a patch names.
pub open spec fn patch_target(p: Patch) -> (Seq<char>, u8, Seq<char>, Seq<char>) {
    match p {
        Patch::Remove { pin, af, peripheral, signal, .. } => (pin@, af, peripheral@, signal@),
        Patch::Add { pin, af, peripheral, signal, .. } => (pin@, af, peripheral@, signal@),
    }
}

/// Every mapping but `t`.
pub open spec fn other_than(t: (Seq<char>, u8, Seq<char>, Seq<char>)) -> spec_fn((Seq<char>, u8, Seq<char>, Seq<char>)) -> bool {
    |m: (Seq<char>, u8, Seq<char>, Seq<char>)| m != t
}

/// One patch applied: a removal drops every copy of its mapping, an
/// addition appends it.
pub open spec fn apply_patch_spec(ms: Seq<(Seq<char>, u8, Seq<char>, Seq<char>)>, p: Patch) -> Seq<
    (Seq<char>, u8, Seq<char>, Seq<char>),
> {
    match p {
        Patch::Remove { .. } => ms.filter(other_than(patch_target(p))),
        Patch::Add { .. } => ms.push(patch_target(p)),
    }
}

/// The patches applied in order.
pub open spec fn apply_patches_spec(ms: Seq<(Seq<char>, u8, Seq<char>, Seq<char>)>, ps: Seq<Patch>) -> Seq<
    (Seq<char>, u8, Seq<char>, Seq<char>),
>
    decreases ps.len(),
{
    if ps.len() == 0 {
        ms
    } else {
        apply_patch_spec(apply_patches_spec(ms, ps.drop_last()), ps.last())
    }
}

fn same_mapping(m: &RawMapping, pin: &str, af: u8, peripheral: &str, signal: &str) -> (r: bool)
    ensures
        r == (raw_view(*m) == (pin@, af, peripheral@, signal@)),
{
    str_eq(m.pin.as_str(), pin) && m.af == af && str_eq(m.peripheral.as_str(), peripheral) && str_eq(
        m.signal.as_str(),
        signal,
    )
}

fn remove_mapping(mappings: &mut Vec<RawMapping>, pin: &str, af: u8, peripheral: &str, signal: &str)
    ensures
        raws(final(mappings)@) == raws(old(mappings)@).filter(other_than((pin@, af, peripheral@, signal@))),
{
    let ghost orig = mappings@;
    let ghost pred = other_than((pin@, af, peripheral@, signal@));
    let mut rest: Vec<RawMapping> = Vec::new();
    std::mem::swap(&mut rest, mappings);
    let total = rest.len();
    let mut kept: Vec<RawMapping> = Vec::new();
    let mut i: usize = 0;
    while rest.len() > 0
        invariant
            0 <= i <= orig.len(),
            orig.len() == total,
            rest@ == orig.skip(i as int),
            pred == other_than((pin@, af, peripheral@, signal@)),
            raws(kept@) == raws(orig.take(i as int)).filter(pred),
        decreases rest@.len(),
    {
        let m = rest.remove(0);
        proof {
            reveal_with_fuel(Seq::<_>::filter, 1);
            assert(raws(orig.take(i + 1)).drop_last() =~= raws(orig.take(i as int)));
            assert(orig.take(i + 1).last() == m);
            assert(rest@ =~= orig.skip(i + 1));
        }
        if !same_mapping(&m, pin, af, peripheral, signal) {
            let ghost before = kept@;
            kept.push(m);
            assert(raws(kept@) =~= raws(before).push(raw_view(m)));
        }
        i += 1;
    }
    assert(orig.take(i as int) =~= orig);
    *mappings = kept;
}

/// Apply the patch table to parsed mappings, in order.
pub fn apply_patches(mappings: &mut Vec<RawMapping>, patches: &[Patch])
    ensures
        raws(final(mappings)@) == apply_patches_spec(raws(old(mappings)@), patches@),
{
    let ghost orig = raws(mappings@);
    let mut i: usize = 0;
    while i < patches.len()
        invariant
            0 <= i <= patches@.len(),
            raws(mappings@) == apply_patches_spec(orig, patches@.take(i as int)),
        decreases patches@.len() - i,
    {
        let ghost before = raws(mappings@);
        match patches[i] {
            Patch::Remove { pin, af, peripheral, signal, .. } => {
                remove_mapping(mappings, pin, af, peripheral, signal);
            },
            Patch::Add { pin, af, peripheral, signal, .. } => {
                mappings.push(RawMapping { pin: owned(pin), af, peripheral: owned(peripheral), signal: owned(signal) });
                assert(raws(mappings@) =~= before.push(patch_target(patches@[i as int])));
            },
        }
        assert(patches@.take(i + 1).drop_last() =~= patches@.take(i as int));
        i += 1;
    }
    assert(patches@.take(patches@.len() as int) =~= patches@);
}

/// The sort key of a pin name: `P`, an uppercase port letter, then a pin
/// number `0..=15` in the syntax `u8` parsing accepts.
pub open spec fn pin_sort_key_spec(s: Seq<char>) -> Option<(char, u8)> {
    if s.len() >= 2 && s[0] == 'P' && 'A' <= s[1] && s[1] <= 'Z' {
        match parse_u8_spec(s.skip(2)) {
            Some(n) => if n <= 15 {
                Some((s[1], n as u8))
            } else {
                None
            },
            None => None,
        }
    } else {
        None
    }
}

/// `"PA7"` → `('A', 7)`, for sorting and validation.
pub fn pin_sort_key(pin: &str) -> (r: Option<(char, u8)>)
    ensures
        r == pin_sort_key_spec(pin@),
{
    let n = pin.unicode_len();
    if n < 2 || pin.get_char(0) != 'P' {
        return None;
    }
    let port = pin.get_char(1);
    if !('A' <= port && port <= 'Z') {
        return None;
    }
    let ghost rest = pin@.skip(2);
    let from: usize = if n > 2 && pin.get_char(2) == '+' {
        3
    } else {
        2
    };
    proof {
        if from == 3 {
            assert(rest.skip(1) =~= pin@.skip(3));
        }
    }
    match capped_digits_value(pin, from) {
        Some(v) => if v <= 15 {
            Some((port, v as u8))
        } else {
            None
        },
        None => None,
    }
}

/// Whether `c` ends the pin part of a pin name (`PC14-OSC32_IN`).
pub open spec fn is_pin_separator(c: char) -> bool {
    c == '-' || c == '/' || c == ' '
}

/// The index of the first separator at or after `i`, else the length.
pub open spec fn field_end(s: Seq<char>, i: int) -> int
    decreases s.len() - i,
{
    if i < 0 || i >= s.len() {
        s.len() as int
    } else if is_pin_separator(s[i]) {
        i
    } else {
        field_end(s, i + 1)
    }
}

/// The pin a package pin name stands for: its part before any `-`, `/` or
/// space, when that is a pin name.
pub open spec fn normalize_pin_spec(s: Seq<char>) -> Option<Seq<char>> {
    let base = s.take(field_end(s, 0));
    if pin_sort_key_spec(base) is Some {
        Some(base)
    } else {
        None
    }
}

/// `"PC14-OSC32_IN"` → `"PC14"`; `"VBAT"`, `"NRST"` → `None`.
pub fn normalize_pin_name(name: &str) -> (r: Option<String>)
    ensures
        match normalize_pin_spec(name@) {
            Some(b) => r matches Some(s) && s@ == b,
            None => r is None,
        },
{
    let n = name.unicode_len();
    let mut i: usize = 0;
    while i < n && !(name.get_char(i) == '-' || name.get_char(i) == '/' || name.get_char(i) == ' ')
        invariant
            0 <= i <= n,
            n == name@.len(),
            field_end(name@, 0) == field_end(name@, i as int),
        decreases n - i,
    {
        i += 1;
    }
    let base = name.substring_char(0, i);
    assert(base@ =~= name@.take(field_end(name@, 0)));
    match pin_sort_key(base) {
        Some(_) => Some(owned(base)),
        None => None,
    }
}


/// Patching is a left fold: the patches apply one after another, in order.
/// A removal keeps, in order, exactly the mappings that differ from its
/// mapping in pin, AF, peripheral or signal; an addition appends its
/// mapping at the end; a patch's reason never affects the result.
pub proof fn lemma_patches_fold(
    ms: Seq<(Seq<char>, u8, Seq<char>, Seq<char>)>,
    ps: Seq<Patch>,
    p: Patch,
    q: Patch,
)
    ensures
        apply_patches_spec(ms, ps.push(p)) == apply_patch_spec(apply_patches_spec(ms, ps), p),
        p is Remove ==> apply_patch_spec(ms, p) == ms.filter(
            |m: (Seq<char>, u8, Seq<char>, Seq<char>)| m != patch_target(p),
        ),
        p is Add ==> apply_patch_spec(ms, p) == ms.push(patch_target(p)),
        (p is Remove <==> q is Remove) && patch_target(p) == patch_target(q) ==> apply_patch_spec(ms, p)
            == apply_patch_spec(ms, q),
{
    assert(ps.push(p).drop_last() =~= ps);
    assert(other_than(patch_target(p)) =~= |m: (Seq<char>, u8, Seq<char>, Seq<char>)| m != patch_target(p));
}

/// A table row: port letter, pin number and the mapping.
pub type RowView = (char, u8, (Seq<char>, u8, Seq<char>, Seq<char>));

/// The rows of the mappings whose pin is on the package and has a sort key,
/// in mapping order.
pub open spec fn package_rows(ms: Seq<(Seq<char>, u8, Seq<char>, Seq<char>)>, pkg: Seq<Seq<char>>) -> Seq<RowView>
    decreases ms.len(),
{
    if ms.len() == 0 {
        Seq::empty()
    } else {
        let rest = package_rows(ms.drop_last(), pkg);
        let m = ms.last();
        match pin_sort_key_spec(m.0) {
            Some((port, number)) => if pkg.contains(m.0) {
                rest.push((port, number, m))
            } else {
                rest
            },
            None => rest,
        }
    }
}

/// Row order: by port, pin number, AF, peripheral, then signal.
pub open spec fn row_lt(a: RowView, b: RowView) -> bool {
    ||| a.0 < b.0
    ||| a.0 == b.0 && a.1 < b.1
    ||| a.0 == b.0 && a.1 == b.1 && a.2.1 < b.2.1
    ||| a.0 == b.0 && a.1 == b.1 && a.2.1 == b.2.1 && seq_lt(a.2.2, b.2.2)
    ||| a.0 == b.0 && a.1 == b.1 && a.2.1 == b.2.1 && a.2.2 == b.2.2 && seq_lt(a.2.3, b.2.3)
}

/// `x` inserted into `s` after every row that does not sort after it.
pub open spec fn insert_row(s: Seq<RowView>, x: RowView) -> Seq<RowView>
    decreases s.len(),
{
    if s.len() == 0 {
        seq![x]
    } else if row_lt(x, s.last()) {
        insert_row(s.drop_last(), x).push(s.last())
    } else {
        s.push(x)
    }
}

/// The rows in row order, rows of equal keys in their original order.
pub open spec fn sort_rows(s: Seq<RowView>) -> Seq<RowView>
    decreases s.len(),
{
    if s.len() == 0 {
        s
    } else {
        insert_row(sort_rows(s.drop_last()), s.last())
    }
}

/// The rows without a row whose mapping repeats the one kept before it.
pub open spec fn dedup_rows(s: Seq<RowView>) -> Seq<RowView>
    decreases s.len(),
{
    if s.len() == 0 {
        s
    } else {
        let d = dedup_rows(s.drop_last());
        if d.len() > 0 && d.last().2 == s.last().2 {
            d
        } else {
            d.push(s.last())
        }
    }
}

/// One rendered table row.
pub open spec fn table_line(r: RowView) -> Seq<char> {
    "    map(Port::"@ + seq![r.0] + ", "@ + dec_digits(r.1 as nat) + ", "@ + dec_digits(r.2.1 as nat) + ", \""@ + r.2.2
        + "\", \""@ + r.2.3 + "\"),\n"@
}

pub open spec fn table_lines(rs: Seq<RowView>) -> Seq<char>
    decreases rs.len(),
{
    if rs.len() == 0 {
        Seq::empty()
    } else {
        table_lines(rs.drop_last()) + table_line(rs.last())
    }
}

/// The generated table source for `name` with `rows`.
pub open spec fn table_text(name: Seq<char>, rows: Seq<RowView>) -> Seq<char> {
    "// @generated by build.rs from packdata/ — do not edit.\npub(crate) const "@ + name + ": &[AfMapping] = &[\n"@
        + table_lines(rows) + "];\n"@
}

/// The rows a table is generated from: the package's rows, sorted, without
/// repeats.
pub open spec fn table_rows(ms: Seq<(Seq<char>, u8, Seq<char>, Seq<char>)>, pkg: Seq<Seq<char>>) -> Seq<RowView> {
    dedup_rows(sort_rows(package_rows(ms, pkg)))
}

/// The strings of `ps` as plain values.
pub open spec fn names(ps: Seq<String>) -> Seq<Seq<char>> {
    ps.map_values(|p: String| p@)
}

/// A row as the generator holds it: the key and the index of its mapping.
pub open spec fn row_of(ms: Seq<RawMapping>, r: (char, u8, usize)) -> RowView {
    (r.0, r.1, raw_view(ms[r.2 as int]))
}

/// Whether a held row indexes a mapping whose pin has the row's key.
pub open spec fn good_row(ms: Seq<RawMapping>, r: (char, u8, usize)) -> bool {
    r.2 < ms.len() && pin_sort_key_spec(ms[r.2 as int].pin@) == Some((r.0, r.1))
}

pub open spec fn rows_of(ms: Seq<RawMapping>, rs: Seq<(char, u8, usize)>) -> Seq<RowView> {
    Seq::new(rs.len(), |i: int| row_of(ms, rs[i]))
}

fn on_package(pkg: &[String], pin: &str) -> (r: bool)
    ensures
        r == names(pkg@).contains(pin@),
{
    let mut i: usize = 0;
    while i < pkg.len()
        invariant
            0 <= i <= pkg@.len(),
            forall|j: int| 0 <= j < i ==> pkg@[j]@ != pin@,
        decreases pkg@.len() - i,
    {
        if str_eq(pkg[i].as_str(), pin) {
            assert(names(pkg@)[i as int] == pin@);
            return true;
        }
        i += 1;
    }
    proof {
        if names(pkg@).contains(pin@) {
            let j = choose|j: int| 0 <= j < names(pkg@).len() && names(pkg@)[j] == pin@;
            assert(pkg@[j]@ == pin@);
        }
    }
    false
}

fn row_less(ms: &[RawMapping], a: (char, u8, usize), b: (char, u8, usize)) -> (r: bool)
    requires
        a.2 < ms@.len(),
        b.2 < ms@.len(),
    ensures
        r == row_lt(row_of(ms@, a), row_of(ms@, b)),
{
    let ma = &ms[a.2];
    let mb = &ms[b.2];
    a.0 < b.0 || (a.0 == b.0 && a.1 < b.1) || (a.0 == b.0 && a.1 == b.1 && ma.af < mb.af) || (a.0 == b.0
        && a.1 == b.1 && ma.af == mb.af && str_lt(ma.peripheral.as_str(), mb.peripheral.as_str())) || (a.0 == b.0 && a.1
        == b.1 && ma.af == mb.af && str_eq(ma.peripheral.as_str(), mb.peripheral.as_str()) && str_lt(
        ma.signal.as_str(),
        mb.signal.as_str(),
    ))
}

/// Inserting into a prefix that ends before `x`'s place leaves the rest after it.
proof fn lemma_insert_row_split(s: Seq<RowView>, x: RowView, p: int)
    requires
        0 <= p <= s.len(),
        forall|j: int| p <= j < s.len() ==> row_lt(x, #[trigger] s[j]),
    ensures
        insert_row(s, x) == insert_row(s.take(p), x) + s.skip(p),
    decreases s.len() - p,
{
    if p < s.len() {
        lemma_insert_row_split(s, x, p + 1);
        let t = s.take(p + 1);
        assert(t.drop_last() =~= s.take(p));
        assert(t.last() == s[p]);
        assert(insert_row(t, x) == insert_row(s.take(p), x).push(s[p]));
        assert(insert_row(s.take(p), x).push(s[p]) + s.skip(p + 1) =~= insert_row(s.take(p), x) + s.skip(p));
    } else {
        assert(s.take(p) =~= s);
        assert(s.skip(p) =~= Seq::<RowView>::empty());
        assert(insert_row(s, x) + Seq::<RowView>::empty() =~= insert_row(s, x));
    }
}

fn table_line_text(m: &RawMapping, port: char, number: u8) -> (r: String)
    requires
        pin_sort_key_spec(m.pin@) == Some((port, number)),
    ensures
        r@ == table_line((port, number, raw_view(*m))),
{
    let mut out = String::from_str("    map(Port::");
    out.append(m.pin.as_str().substring_char(1, 2));
    out.append(", ");
    out.append(u64_to_string(number as u64).as_str());
    out.append(", ");
    out.append(u64_to_string(m.af as u64).as_str());
    out.append(", \"");
    out.append(m.peripheral.as_str());
    out.append("\", \"");
    out.append(m.signal.as_str());
    out.append("\"),\n");
    assert(m.pin@.subrange(1, 2) =~= seq![port]);
    out
}

/// The generated Rust source of the AF table `const_name`: the mappings on
/// the package's pins, sorted by pin, AF, peripheral and signal, repeats
/// dropped, one `map(..)` row each. The output is byte-deterministic.
pub fn generate_table(mappings: &[RawMapping], package_pins: &[String], const_name: &str) -> (r: String)
    ensures
        r@ == table_text(const_name@, table_rows(raws(mappings@), names(package_pins@))),
{
    // Rows on the package, in mapping order.
    let mut rows: Vec<(char, u8, usize)> = Vec::new();
    let mut i: usize = 0;
    while i < mappings.len()
        invariant
            0 <= i <= mappings@.len(),
            forall|k: int| 0 <= k < rows@.len() ==> good_row(mappings@, #[trigger] rows@[k]),
            rows_of(mappings@, rows@) == package_rows(raws(mappings@.take(i as int)), names(package_pins@)),
        decreases mappings@.len() - i,
    {
        let m = &mappings[i];
        proof {
            assert(raws(mappings@.take(i + 1)).drop_last() =~= raws(mappings@.take(i as int)));
            assert(raws(mappings@.take(i + 1)).last() == raw_view(*m));
        }
        match pin_sort_key(m.pin.as_str()) {
            Some((port, number)) => {
                if on_package(package_pins, m.pin.as_str()) {
                    let ghost before = rows@;
                    rows.push((port, number, i));
                    assert(rows_of(mappings@, rows@) =~= rows_of(mappings@, before).push((port, number, raw_view(*m))));
                }
            },
            None => {},
        }
        i += 1;
    }
    assert(mappings@.take(mappings@.len() as int) =~= mappings@);
    let ghost pkg_rows = rows_of(mappings@, rows@);
    // Stable insertion sort.
    let mut sorted: Vec<(char, u8, usize)> = Vec::new();
    let mut k: usize = 0;
    assert(pkg_rows.take(0) =~= Seq::<RowView>::empty());
    while k < rows.len()
        invariant
            0 <= k <= rows@.len(),
            pkg_rows == rows_of(mappings@, rows@),
            forall|j: int| 0 <= j < rows@.len() ==> good_row(mappings@, #[trigger] rows@[j]),
            forall|j: int| 0 <= j < sorted@.len() ==> good_row(mappings@, #[trigger] sorted@[j]),
            rows_of(mappings@, sorted@) == sort_rows(pkg_rows.take(k as int)),
        decreases rows@.len() - k,
    {
        let x = rows[k];
        let ghost cur = rows_of(mappings@, sorted@);
        let mut p: usize = sorted.len();
        while p > 0 && row_less(mappings, x, sorted[p - 1])
            invariant
                0 <= p <= sorted@.len(),
                good_row(mappings@, x),
                cur == rows_of(mappings@, sorted@),
                forall|j: int| 0 <= j < sorted@.len() ==> good_row(mappings@, #[trigger] sorted@[j]),
                forall|j: int| p <= j < cur.len() ==> row_lt(row_of(mappings@, x), #[trigger] cur[j]),
            decreases p,
        {
            p -= 1;
        }
        proof {
            let xr = row_of(mappings@, x);
            lemma_insert_row_split(cur, xr, p as int);
            let t = cur.take(p as int);
            if p > 0 {
                assert(t.last() == cur[p - 1]);
                assert(!row_lt(xr, t.last()));
                assert(insert_row(t, xr) == t.push(xr));
            } else {
                assert(t =~= Seq::<RowView>::empty());
                assert(insert_row(t, xr) == seq![xr]);
            }
            assert(pkg_rows.take(k + 1).drop_last() =~= pkg_rows.take(k as int));
            assert(pkg_rows.take(k + 1).last() == xr);
        }
        let ghost before = sorted@;
        sorted.insert(p, x);
        assert forall|j: int| 0 <= j < sorted@.len() implies good_row(mappings@, #[trigger] sorted@[j]) by {
            if j < p {
                assert(sorted@[j] == before[j]);
            } else if j > p {
                assert(sorted@[j] == before[j - 1]);
            }
        }
        proof {
            let xr = row_of(mappings@, x);
            assert(rows_of(mappings@, sorted@) =~= cur.take(p as int).push(xr) + cur.skip(p as int)) by {
                assert(sorted@ == before.insert(p as int, x));
            }
        }
        k += 1;
    }
    assert(pkg_rows.take(rows@.len() as int) =~= pkg_rows);
    let ghost sorted_rows = rows_of(mappings@, sorted@);
    // Drop rows whose mapping repeats the one kept before.
    let mut kept: Vec<(char, u8, usize)> = Vec::new();
    let mut q: usize = 0;
    assert(sorted_rows.take(0) =~= Seq::<RowView>::empty());
    while q < sorted.len()
        invariant
            0 <= q <= sorted@.len(),
            sorted_rows == rows_of(mappings@, sorted@),
            forall|j: int| 0 <= j < sorted@.len() ==> good_row(mappings@, #[trigger] sorted@[j]),
            forall|j: int| 0 <= j < kept@.len() ==> good_row(mappings@, #[trigger] kept@[j]),
            rows_of(mappings@, kept@) == dedup_rows(sorted_rows.take(q as int)),
        decreases sorted@.len() - q,
    {
        let x = sorted[q];
        proof {
            assert(sorted_rows.take(q + 1).drop_last() =~= sorted_rows.take(q as int));
            assert(sorted_rows.take(q + 1).last() == row_of(mappings@, x));
        }
        let repeat = if kept.len() > 0 {
            let last = kept[kept.len() - 1];
            same_mapping(&mappings[x.2], mappings[last.2].pin.as_str(), mappings[last.2].af, mappings[last.2].peripheral.as_str(), mappings[last.2].signal.as_str())
        } else {
            false
        };
        if !repeat {
            let ghost before = kept@;
            kept.push(x);
            assert(rows_of(mappings@, kept@) =~= rows_of(mappings@, before).push(row_of(mappings@, x)));
        }
        q += 1;
    }
    assert(sorted_rows.take(sorted@.len() as int) =~= sorted_rows);
    // Render.
    let mut out = String::from_str("// @generated by build.rs from packdata/ — do not edit.\npub(crate) const ");
    out.append(const_name);
    out.append(": &[AfMapping] = &[\n");
    let ghost head = out@;
    let ghost final_rows = rows_of(mappings@, kept@);
    let mut w: usize = 0;
    assert(final_rows.take(0) =~= Seq::<RowView>::empty());
    while w < kept.len()
        invariant
            0 <= w <= kept@.len(),
            final_rows == rows_of(mappings@, kept@),
            forall|j: int| 0 <= j < kept@.len() ==> good_row(mappings@, #[trigger] kept@[j]),
            out@ == head + table_lines(final_rows.take(w as int)),
        decreases kept@.len() - w,
    {
        let r = kept[w];
        let line = table_line_text(&mappings[r.2], r.0, r.1);
        out.append(line.as_str());
        proof {
            assert(final_rows.take(w + 1).drop_last() =~= final_rows.take(w as int));
            assert(final_rows.take(w + 1).last() == row_of(mappings@, r));
        }
        w += 1;
    }
    assert(final_rows.take(kept@.len() as int) =~= final_rows);
    out.append("];\n");
    out
}


/// Whether no row of `s` sorts before an earlier one.
pub open spec fn rows_sorted(s: Seq<RowView>) -> bool {
    forall|i: int, j: int| 0 <= i < j < s.len() ==> !row_lt(#[trigger] s[j], #[trigger] s[i])
}

/// Whether no two neighbouring rows of `s` carry the same mapping.
pub open spec fn no_adjacent_repeats(s: Seq<RowView>) -> bool {
    forall|i: int| 0 <= i && i + 1 < s.len() ==> (#[trigger] s[i]).2 != s[i + 1].2
}

proof fn lemma_row_lt_asymmetric(a: RowView, b: RowView)
    requires
        row_lt(a, b),
    ensures
        !row_lt(b, a),
{
    lemma_seq_lt_total(a.2.2, b.2.2);
    lemma_seq_lt_total(a.2.3, b.2.3);
}

/// Not sorting before is transitive.
proof fn lemma_row_ge_transitive(x: RowView, y: RowView, z: RowView)
    requires
        !row_lt(x, y),
        !row_lt(y, z),
    ensures
        !row_lt(x, z),
{
    lemma_seq_lt_total(x.2.2, y.2.2);
    lemma_seq_lt_total(y.2.2, z.2.2);
    lemma_seq_lt_total(x.2.3, y.2.3);
    lemma_seq_lt_total(y.2.3, z.2.3);
    lemma_seq_lt_total(x.2.2, z.2.2);
    lemma_seq_lt_total(x.2.3, z.2.3);
    if seq_lt(x.2.2, z.2.2) && seq_lt(z.2.2, y.2.2) {
        lemma_seq_lt_transitive(x.2.2, z.2.2, y.2.2);
    }
    if seq_lt(y.2.2, x.2.2) && seq_lt(x.2.2, z.2.2) {
        lemma_seq_lt_transitive(y.2.2, x.2.2, z.2.2);
    }
    if seq_lt(x.2.3, z.2.3) && seq_lt(z.2.3, y.2.3) {
        lemma_seq_lt_transitive(x.2.3, z.2.3, y.2.3);
    }
    if seq_lt(y.2.3, x.2.3) && seq_lt(x.2.3, z.2.3) {
        lemma_seq_lt_transitive(y.2.3, x.2.3, z.2.3);
    }
}

proof fn lemma_insert_row_sorted(s: Seq<RowView>, x: RowView)
    requires
        rows_sorted(s),
    ensures
        rows_sorted(insert_row(s, x)),
        insert_row(s, x).len() == s.len() + 1,
        forall|i: int| 0 <= i < insert_row(s, x).len() ==> #[trigger] insert_row(s, x)[i] == x || s.contains(insert_row(s, x)[i]),
    decreases s.len(),
{
    if s.len() == 0 {
    } else if row_lt(x, s.last()) {
        let d = s.drop_last();
        lemma_insert_row_sorted(d, x);
        let r = insert_row(s, x);
        let inner = insert_row(d, x);
        assert(r == inner.push(s.last()));
        assert forall|i: int| 0 <= i < r.len() implies #[trigger] r[i] == x || s.contains(r[i]) by {
            if i < inner.len() {
                assert(r[i] == inner[i]);
                if r[i] != x {
                    let k = choose|k: int| 0 <= k < d.len() && d[k] == inner[i];
                    assert(s[k] == d[k]);
                }
            } else {
                assert(r[i] == s[s.len() - 1]);
            }
        }
        assert forall|i: int, j: int| 0 <= i < j < r.len() implies !row_lt(#[trigger] r[j], #[trigger] r[i]) by {
            if j < inner.len() {
                assert(r[i] == inner[i] && r[j] == inner[j]);
            } else {
                assert(r[j] == s.last());
                assert(r[i] == inner[i]);
                if inner[i] == x {
                    lemma_row_lt_asymmetric(x, s.last());
                } else {
                    let k = choose|k: int| 0 <= k < d.len() && d[k] == inner[i];
                    assert(s[k] == d[k]);
                }
            }
        }
    } else {
        let r = insert_row(s, x);
        assert(r == s.push(x));
        assert forall|i: int| 0 <= i < r.len() implies #[trigger] r[i] == x || s.contains(r[i]) by {
            if i < s.len() {
                assert(r[i] == s[i]);
            }
        }
        assert forall|i: int, j: int| 0 <= i < j < r.len() implies !row_lt(#[trigger] r[j], #[trigger] r[i]) by {
            if j < s.len() {
                assert(r[i] == s[i] && r[j] == s[j]);
            } else {
                assert(r[j] == x && r[i] == s[i]);
                if i < s.len() - 1 {
                    lemma_row_ge_transitive(x, s.last(), s[i]);
                }
            }
        }
    }
}

proof fn lemma_sort_rows_sorted(s: Seq<RowView>)
    ensures
        rows_sorted(sort_rows(s)),
    decreases s.len(),
{
    if s.len() > 0 {
        lemma_sort_rows_sorted(s.drop_last());
        lemma_insert_row_sorted(sort_rows(s.drop_last()), s.last());
    }
}

proof fn lemma_dedup_rows(s: Seq<RowView>)
    requires
        rows_sorted(s),
    ensures
        rows_sorted(dedup_rows(s)),
        no_adjacent_repeats(dedup_rows(s)),
        forall|i: int| 0 <= i < dedup_rows(s).len() ==> s.contains(#[trigger] dedup_rows(s)[i]),
    decreases s.len(),
{
    if s.len() > 0 {
        let dl = s.drop_last();
        assert(rows_sorted(dl)) by {
            assert forall|i: int, j: int| 0 <= i < j < dl.len() implies !row_lt(#[trigger] dl[j], #[trigger] dl[i]) by {
                assert(dl[i] == s[i] && dl[j] == s[j]);
            }
        }
        lemma_dedup_rows(dl);
        let d = dedup_rows(dl);
        assert forall|i: int| 0 <= i < d.len() implies s.contains(#[trigger] d[i]) by {
            let k = choose|k: int| 0 <= k < dl.len() && dl[k] == d[i];
            assert(s[k] == dl[k]);
        }
        if !(d.len() > 0 && d.last().2 == s.last().2) {
            let r = d.push(s.last());
            assert(dedup_rows(s) == r);
            assert forall|i: int| 0 <= i < r.len() implies s.contains(#[trigger] r[i]) by {
                if i < d.len() {
                    assert(r[i] == d[i]);
                } else {
                    assert(r[i] == s[s.len() - 1]);
                }
            }
            assert forall|i: int, j: int| 0 <= i < j < r.len() implies !row_lt(#[trigger] r[j], #[trigger] r[i]) by {
                if j < d.len() {
                    assert(r[i] == d[i] && r[j] == d[j]);
                } else {
                    assert(r[i] == d[i]);
                    let k = choose|k: int| 0 <= k < dl.len() && dl[k] == d[i];
                    assert(s[k] == d[i]);
                    assert(r[j] == s[s.len() - 1]);
                }
            }
            assert forall|i: int| 0 <= i && i + 1 < r.len() implies (#[trigger] r[i]).2 != r[i + 1].2 by {
                if i + 1 < d.len() {
                    assert(r[i] == d[i] && r[i + 1] == d[i + 1]);
                } else {
                    assert(r[i] == d.last());
                }
            }
        }
    }
}

/// The generated table is in row order — by port, pin number, AF,
/// peripheral, then signal — and never repeats a mapping on neighbouring
/// rows.
pub proof fn lemma_table_rows_ordered(ms: Seq<(Seq<char>, u8, Seq<char>, Seq<char>)>, pkg: Seq<Seq<char>>)
    ensures
        rows_sorted(table_rows(ms, pkg)),
        no_adjacent_repeats(table_rows(ms, pkg)),
{
    lemma_sort_rows_sorted(package_rows(ms, pkg));
    lemma_dedup_rows(sort_rows(package_rows(ms, pkg)));
}


/// Whether some row of `s` carries the mapping `m`.
pub open spec fn has_mapping(s: Seq<RowView>, m: (Seq<char>, u8, Seq<char>, Seq<char>)) -> bool {
    exists|i: int| 0 <= i < s.len() && (#[trigger] s[i]).2 == m
}

proof fn lemma_package_rows_members(
    ms: Seq<(Seq<char>, u8, Seq<char>, Seq<char>)>,
    pkg: Seq<Seq<char>>,
    m: (Seq<char>, u8, Seq<char>, Seq<char>),
)
    ensures
        has_mapping(package_rows(ms, pkg), m) == (ms.contains(m) && pkg.contains(m.0) && pin_sort_key_spec(m.0) is Some),
    decreases ms.len(),
{
    if ms.len() > 0 {
        let d = ms.drop_last();
        lemma_package_rows_members(d, pkg, m);
        let r = package_rows(ms, pkg);
        let q = package_rows(d, pkg);
        let keep = pin_sort_key_spec(ms.last().0) is Some && pkg.contains(ms.last().0);
        if keep {
            let (port, number) = pin_sort_key_spec(ms.last().0)->0;
            assert(r == q.push((port, number, ms.last())));
        } else {
            assert(r == q);
        }
        if has_mapping(r, m) {
            let i = choose|i: int| 0 <= i < r.len() && (#[trigger] r[i]).2 == m;
            if i < q.len() {
                assert(r[i] == q[i]);
                let k = choose|k: int| 0 <= k < d.len() && d[k] == m;
                assert(ms[k] == d[k]);
            } else {
                assert(ms[ms.len() - 1] == m);
            }
        }
        if ms.contains(m) && pkg.contains(m.0) && pin_sort_key_spec(m.0) is Some {
            let k = choose|k: int| 0 <= k < ms.len() && ms[k] == m;
            if k < ms.len() - 1 {
                assert(d[k] == m);
                let i = choose|i: int| 0 <= i < q.len() && (#[trigger] q[i]).2 == m;
                assert(r[i] == q[i]);
            } else {
                assert(r[q.len() as int].2 == m);
            }
        }
    }
}

proof fn lemma_insert_row_members(s: Seq<RowView>, x: RowView, y: RowView)
    ensures
        insert_row(s, x).contains(y) == (y == x || s.contains(y)),
    decreases s.len(),
{
    let r = insert_row(s, x);
    if s.len() == 0 {
        assert(r =~= seq![x]);
        if y == x {
            assert(r[0] == y);
        }
        if r.contains(y) {
            let i = choose|i: int| 0 <= i < r.len() && r[i] == y;
            assert(r[i] == x);
        }
    } else if row_lt(x, s.last()) {
        let d = s.drop_last();
        lemma_insert_row_members(d, x, y);
        let inner = insert_row(d, x);
        assert(r == inner.push(s.last()));
        if r.contains(y) {
            let i = choose|i: int| 0 <= i < r.len() && r[i] == y;
            if i < inner.len() {
                assert(inner[i] == y);
                if y != x {
                    let k = choose|k: int| 0 <= k < d.len() && d[k] == y;
                    assert(s[k] == y);
                }
            } else {
                assert(s[s.len() - 1] == y);
            }
        }
        if y == x || s.contains(y) {
            if y == x || d.contains(y) {
                let i = choose|i: int| 0 <= i < inner.len() && inner[i] == y;
                assert(r[i] == y);
            } else {
                let k = choose|k: int| 0 <= k < s.len() && s[k] == y;
                if k < d.len() {
                    assert(d[k] == y);
                } else {
                    assert(r[r.len() - 1] == y);
                }
            }
        }
    } else {
        assert(r == s.push(x));
        if r.contains(y) {
            let i = choose|i: int| 0 <= i < r.len() && r[i] == y;
            if i < s.len() {
                assert(s[i] == y);
            }
        }
        if s.contains(y) {
            let k = choose|k: int| 0 <= k < s.len() && s[k] == y;
            assert(r[k] == y);
        }
        if y == x {
            assert(r[s.len() as int] == y);
        }
    }
}

proof fn lemma_sort_rows_members(s: Seq<RowView>, y: RowView)
    ensures
        sort_rows(s).contains(y) == s.contains(y),
    decreases s.len(),
{
    if s.len() > 0 {
        let d = s.drop_last();
        lemma_sort_rows_members(d, y);
        lemma_insert_row_members(sort_rows(d), s.last(), y);
        if s.contains(y) && y != s.last() {
            let k = choose|k: int| 0 <= k < s.len() && s[k] == y;
            assert(d[k] == y);
        }
        if d.contains(y) {
            let k = choose|k: int| 0 <= k < d.len() && d[k] == y;
            assert(s[k] == y);
        }
        assert(s[s.len() - 1] == s.last());
    }
}

proof fn lemma_dedup_rows_members(s: Seq<RowView>, m: (Seq<char>, u8, Seq<char>, Seq<char>))
    ensures
        has_mapping(dedup_rows(s), m) == has_mapping(s, m),
    decreases s.len(),
{
    if s.len() > 0 {
        let dl = s.drop_last();
        lemma_dedup_rows_members(dl, m);
        let d = dedup_rows(dl);
        let r = dedup_rows(s);
        if d.len() > 0 && d.last().2 == s.last().2 {
            assert(r == d);
            if s.last().2 == m {
                assert(d[d.len() - 1].2 == m);
            }
        } else {
            assert(r == d.push(s.last()));
            if has_mapping(d, m) {
                let i = choose|i: int| 0 <= i < d.len() && (#[trigger] d[i]).2 == m;
                assert(r[i] == d[i]);
            }
            if s.last().2 == m {
                assert(r[d.len() as int].2 == m);
            }
            if has_mapping(r, m) {
                let i = choose|i: int| 0 <= i < r.len() && (#[trigger] r[i]).2 == m;
                if i < d.len() {
                    assert(r[i] == d[i]);
                }
            }
        }
        if has_mapping(s, m) {
            let i = choose|i: int| 0 <= i < s.len() && (#[trigger] s[i]).2 == m;
            if i < dl.len() {
                assert(dl[i] == s[i]);
            }
        }
        if has_mapping(dl, m) {
            let i = choose|i: int| 0 <= i < dl.len() && (#[trigger] dl[i]).2 == m;
            assert(s[i] == dl[i]);
        }
        if has_mapping(r, m) && !has_mapping(d, m) {
            assert(s[s.len() - 1].2 == m);
        }
    }
}

/// The generated table has a row for a mapping exactly when the patched
/// mappings hold it, its pin is on the package, and the pin names a real
/// port and number.
pub proof fn lemma_table_rows_members(
    ms: Seq<(Seq<char>, u8, Seq<char>, Seq<char>)>,
    pkg: Seq<Seq<char>>,
    m: (Seq<char>, u8, Seq<char>, Seq<char>),
)
    ensures
        has_mapping(table_rows(ms, pkg), m) == (ms.contains(m) && pkg.contains(m.0) && pin_sort_key_spec(m.0) is Some),
{
    let p = package_rows(ms, pkg);
    let sr = sort_rows(p);
    lemma_package_rows_members(ms, pkg, m);
    lemma_dedup_rows_members(sr, m);
    if has_mapping(sr, m) {
        let i = choose|i: int| 0 <= i < sr.len() && (#[trigger] sr[i]).2 == m;
        lemma_sort_rows_members(p, sr[i]);
        assert(sr.contains(sr[i]));
        let k = choose|k: int| 0 <= k < p.len() && p[k] == sr[i];
        assert(p[k].2 == m);
    }
    if has_mapping(p, m) {
        let k = choose|k: int| 0 <= k < p.len() && (#[trigger] p[k]).2 == m;
        lemma_sort_rows_members(p, p[k]);
        assert(p.contains(p[k]));
        let i = choose|i: int| 0 <= i < sr.len() && sr[i] == p[k];
        assert(sr[i].2 == m);
    }
}

/// One node of a parsed XML document: its depth below the document root
/// (the root itself counts one), whether it is an element, its local name,
/// its attributes as `(namespace, local name, value)`, and its text (an
/// element's leading text child, a text or comment node's own text).
#[derive(Debug, Clone, PartialEq, Eq)]
pub struct XmlNode {
    pub depth: usize,
    pub element: bool,
    pub name: String,
    pub attributes: Vec<(Option<String>, String, String)>,
    pub text: Option<String>,
}

/// An XML node as plain values.
pub type NodeView = (nat, bool, Seq<char>, Seq<(Option<Seq<char>>, Seq<char>, Seq<char>)>, Option<Seq<char>>);

pub open spec fn opt_view(o: Option<String>) -> Option<Seq<char>> {
    match o {
        Some(s) => Some(s@),
        None => None,
    }
}

pub open spec fn attr_view(a: (Option<String>, String, String)) -> (Option<Seq<char>>, Seq<char>, Seq<char>) {
    (opt_view(a.0), a.1@, a.2@)
}

pub open spec fn node_view(n: XmlNode) -> NodeView {
    (n.depth as nat, n.element, n.name@, n.attributes@.map_values(|a: (Option<String>, String, String)| attr_view(a)), opt_view(n.text))
}

pub open spec fn nodes_view(ns: Seq<XmlNode>) -> Seq<NodeView> {
    ns.map_values(|n: XmlNode| node_view(n))
}

/// What `roxmltree` makes of a document: every node in document order, or
/// the text of its parse error.
pub uninterp spec fn xml_parse(xml: Seq<char>) -> Result<Seq<NodeView>, Seq<char>>;

/// `roxmltree::Document::parse`, with every node of the document (its
/// `descendants()`) converted to an [`XmlNode`]; a parse error becomes its
/// message. The contract names the result as a function of the text: the
/// XML grammar is the crate's.
#[verifier::external_body]
fn xml_nodes(xml: &str) -> (r: Result<Vec<XmlNode>, String>)
    ensures
        match r {
            Ok(v) => xml_parse(xml@) == Ok::<Seq<NodeView>, Seq<char>>(nodes_view(v@)),
            Err(e) => xml_parse(xml@) == Err::<Seq<NodeView>, Seq<char>>(e@),
        },
{
    let doc = roxmltree::Document::parse(xml).map_err(|e| e.to_string())?;
    Ok(doc.descendants().map(|n| XmlNode {
        depth: n.ancestors().count(),
        element: n.is_element(),
        name: n.tag_name().name().to_string(),
        attributes: n.attributes().map(|a| (a.namespace().map(String::from), a.name().to_string(), a.value().to_string())).collect(),
        text: n.text().map(String::from),
    }).collect())
}

/// The value of the first attribute without a namespace named `name`.
pub open spec fn attr_of(attrs: Seq<(Option<Seq<char>>, Seq<char>, Seq<char>)>, name: Seq<char>) -> Option<Seq<char>>
    decreases attrs.len(),
{
    if attrs.len() == 0 {
        None
    } else if attrs[0].0 is None && attrs[0].1 == name {
        Some(attrs[0].2)
    } else {
        attr_of(attrs.drop_first(), name)
    }
}

/// Whether node `k` is an element child of node `p` named `name`, given that
/// `k` lies inside `p`'s subtree.
pub open spec fn is_child_named(ns: Seq<NodeView>, p: int, k: int, name: Seq<char>) -> bool {
    ns[k].0 == ns[p].0 + 1 && ns[k].1 && ns[k].2 == name
}

/// Whether node `k` lies inside the subtree of the node at depth `d` that
/// precedes it, scanning on from there.
pub open spec fn in_subtree(ns: Seq<NodeView>, d: nat, k: int) -> bool {
    0 <= k < ns.len() && ns[k].0 > d
}

/// The first `GPIO_AF` parameter among the children of `p`, from `k` on.
pub open spec fn find_af_param(ns: Seq<NodeView>, p: int, k: int) -> Option<int>
    decreases ns.len() - k,
{
    if k <= p || !in_subtree(ns, ns[p].0, k) {
        None
    } else if is_child_named(ns, p, k, "SpecificParameter"@) && attr_of(ns[k].3, "Name"@) == Some("GPIO_AF"@) {
        Some(k)
    } else {
        find_af_param(ns, p, k + 1)
    }
}

/// The first `PossibleValue` child of `p`, from `k` on.
pub open spec fn find_possible_value(ns: Seq<NodeView>, p: int, k: int) -> Option<int>
    decreases ns.len() - k,
{
    if k <= p || !in_subtree(ns, ns[p].0, k) {
        None
    } else if is_child_named(ns, p, k, "PossibleValue"@) {
        Some(k)
    } else {
        find_possible_value(ns, p, k + 1)
    }
}

/// The `GPIO_AF` value text of the pin signal at `j`, if it has one.
pub open spec fn af_text(ns: Seq<NodeView>, j: int) -> Option<Seq<char>> {
    match find_af_param(ns, j, j + 1) {
        Some(k) => match find_possible_value(ns, k, k + 1) {
            Some(l) => ns[l].4,
            None => None,
        },
        None => None,
    }
}

/// The index of the first `c` in `s` at or after `i`, else the length.
pub open spec fn index_of_from(s: Seq<char>, c: char, i: int) -> int
    decreases s.len() - i,
{
    if i < 0 || i >= s.len() {
        s.len() as int
    } else if s[i] == c {
        i
    } else {
        index_of_from(s, c, i + 1)
    }
}

/// The AF number of a `GPIO_AF<n>_<peripheral>` value: after the prefix,
/// up to the first `_`, parsed as `u8`, at most 15.
pub open spec fn af_number(t: Seq<char>) -> Option<u8> {
    if t.len() >= 7 && t.take(7) == "GPIO_AF"@ {
        let rest = t.skip(7);
        let field = rest.take(index_of_from(rest, '_', 0));
        match parse_u8_spec(field) {
            Some(n) => if n <= 15 {
                Some(n as u8)
            } else {
                None
            },
            None => None,
        }
    } else {
        None
    }
}

/// `SPI1_MOSI` → `(SPI1, MOSI)`; a name without `_` is both.
pub open spec fn split_signal(s: Seq<char>) -> (Seq<char>, Seq<char>) {
    let k = index_of_from(s, '_', 0);
    if k < s.len() {
        (s.take(k), s.skip(k + 1))
    } else {
        (s, s)
    }
}

/// The mapping of the pin signal at `j` on pin `pin`: none without an AF
/// value, an error without a name or with a malformed AF value.
pub open spec fn signal_mapping(ns: Seq<NodeView>, j: int, pin: Seq<char>) -> Result<
    Option<(Seq<char>, u8, Seq<char>, Seq<char>)>,
    Seq<char>,
> {
    match attr_of(ns[j].3, "Name"@) {
        None => Err("<"@ + ns[j].2 + "> missing Name attribute"@),
        Some(name) => match af_text(ns, j) {
            None => Ok(None),
            Some(t) => match af_number(t) {
                None => Err("bad GPIO_AF value "@ + str_debug_spec(t)),
                Some(af) => Ok(Some((pin, af, split_signal(name).0, split_signal(name).1))),
            },
        },
    }
}

/// The mappings of the `PinSignal` children of the pin at `p`, from node `j`
/// on.
pub open spec fn signals_from(ns: Seq<NodeView>, p: int, pin: Seq<char>, j: int) -> Result<
    Seq<(Seq<char>, u8, Seq<char>, Seq<char>)>,
    Seq<char>,
>
    decreases ns.len() - j,
{
    if j <= p || !in_subtree(ns, ns[p].0, j) {
        Ok(Seq::empty())
    } else if is_child_named(ns, p, j, "PinSignal"@) {
        match signal_mapping(ns, j, pin) {
            Err(e) => Err(e),
            Ok(m) => match signals_from(ns, p, pin, j + 1) {
                Err(e) => Err(e),
                Ok(rest) => Ok(
                    match m {
                        Some(x) => seq![x] + rest,
                        None => rest,
                    },
                ),
            },
        }
    } else {
        signals_from(ns, p, pin, j + 1)
    }
}

/// The mappings of the `GPIO_Pin` element at `i`: an error without a name,
/// none when the name is not a pin.
pub open spec fn pin_mappings(ns: Seq<NodeView>, i: int) -> Result<Seq<(Seq<char>, u8, Seq<char>, Seq<char>)>, Seq<char>> {
    match attr_of(ns[i].3, "Name"@) {
        None => Err("<"@ + ns[i].2 + "> missing Name attribute"@),
        Some(name) => match normalize_pin_spec(name) {
            None => Ok(Seq::empty()),
            Some(pin) => signals_from(ns, i, pin, i + 1),
        },
    }
}

/// The mappings of every `GPIO_Pin` element from node `i` on, in document
/// order; the first error stops the reading.
pub open spec fn modes_from(ns: Seq<NodeView>, i: int) -> Result<Seq<(Seq<char>, u8, Seq<char>, Seq<char>)>, Seq<char>>
    decreases ns.len() - i,
{
    if i < 0 || i >= ns.len() {
        Ok(Seq::empty())
    } else if ns[i].1 && ns[i].2 == "GPIO_Pin"@ {
        match pin_mappings(ns, i) {
            Err(e) => Err(e),
            Ok(ms) => match modes_from(ns, i + 1) {
                Err(e) => Err(e),
                Ok(rest) => Ok(ms + rest),
            },
        }
    } else {
        modes_from(ns, i + 1)
    }
}


/// The pin names of the `Pin` elements from node `i` on, normalized, in
/// document order; entries that are not pins are left out.
pub open spec fn package_pins_from(ns: Seq<NodeView>, i: int) -> Seq<Seq<char>>
    decreases ns.len() - i,
{
    if i < 0 || i >= ns.len() {
        Seq::empty()
    } else {
        let rest = package_pins_from(ns, i + 1);
        if ns[i].1 && ns[i].2 == "Pin"@ {
            match attr_of(ns[i].3, "Name"@) {
                Some(n) => match normalize_pin_spec(n) {
                    Some(b) => seq![b] + rest,
                    None => rest,
                },
                None => rest,
            }
        } else {
            rest
        }
    }
}

fn attr_value<'a>(attrs: &'a Vec<(Option<String>, String, String)>, name: &str) -> (r: Option<&'a str>)
    ensures
        match attr_of(attrs@.map_values(|a: (Option<String>, String, String)| attr_view(a)), name@) {
            Some(v) => r matches Some(s) && s@ == v,
            None => r is None,
        },
{
    let ghost av = attrs@.map_values(|a: (Option<String>, String, String)| attr_view(a));
    let mut i: usize = 0;
    assert(av.skip(0) =~= av);
    while i < attrs.len()
        invariant
            0 <= i <= attrs@.len(),
            av == attrs@.map_values(|a: (Option<String>, String, String)| attr_view(a)),
            attr_of(av, name@) == attr_of(av.skip(i as int), name@),
        decreases attrs@.len() - i,
    {
        let a = &attrs[i];
        proof {
            assert(av.skip(i as int)[0] == attr_view(*a));
            assert(av.skip(i as int).drop_first() =~= av.skip(i + 1));
        }
        if a.0.is_none() && str_eq(a.1.as_str(), name) {
            return Some(a.2.as_str());
        }
        i += 1;
    }
    assert(av.skip(i as int) =~= Seq::<(Option<Seq<char>>, Seq<char>, Seq<char>)>::empty());
    None
}

fn node_attr<'a>(ns: &'a Vec<XmlNode>, k: usize, name: &str) -> (r: Option<&'a str>)
    requires
        k < ns@.len(),
    ensures
        match attr_of(nodes_view(ns@)[k as int].3, name@) {
            Some(v) => r matches Some(s) && s@ == v,
            None => r is None,
        },
{
    attr_value(&ns[k].attributes, name)
}

fn find_af_param_at(ns: &Vec<XmlNode>, p: usize) -> (r: Option<usize>)
    requires
        p < ns@.len(),
    ensures
        match find_af_param(nodes_view(ns@), p as int, p + 1) {
            Some(k) => r == Some(k as usize) && p < k < ns@.len(),
            None => r is None,
        },
{
    let ghost nv = nodes_view(ns@);
    let total = ns.len();
    let d = ns[p].depth;
    let mut k = p + 1;
    while k < ns.len() && ns[k].depth > d
        invariant
            p < k <= ns@.len(),
            nv == nodes_view(ns@),
            d == ns@[p as int].depth,
            find_af_param(nv, p as int, p + 1) == find_af_param(nv, p as int, k as int),
        decreases ns@.len() - k,
    {
        let n = &ns[k];
        if n.depth == d + 1 && n.element && str_eq(n.name.as_str(), "SpecificParameter") {
            match node_attr(ns, k, "Name") {
                Some(v) => {
                    if str_eq(v, "GPIO_AF") {
                        return Some(k);
                    }
                },
                None => {},
            }
        }
        k += 1;
    }
    None
}

fn find_possible_value_at(ns: &Vec<XmlNode>, p: usize) -> (r: Option<usize>)
    requires
        p < ns@.len(),
    ensures
        match find_possible_value(nodes_view(ns@), p as int, p + 1) {
            Some(k) => r == Some(k as usize) && p < k < ns@.len(),
            None => r is None,
        },
{
    let ghost nv = nodes_view(ns@);
    let total = ns.len();
    let d = ns[p].depth;
    let mut k = p + 1;
    while k < ns.len() && ns[k].depth > d
        invariant
            p < k <= ns@.len(),
            nv == nodes_view(ns@),
            d == ns@[p as int].depth,
            find_possible_value(nv, p as int, p + 1) == find_possible_value(nv, p as int, k as int),
        decreases ns@.len() - k,
    {
        let n = &ns[k];
        if n.depth == d + 1 && n.element && str_eq(n.name.as_str(), "PossibleValue") {
            return Some(k);
        }
        k += 1;
    }
    None
}

fn af_text_at<'a>(ns: &'a Vec<XmlNode>, j: usize) -> (r: Option<&'a str>)
    requires
        j < ns@.len(),
    ensures
        match af_text(nodes_view(ns@), j as int) {
            Some(t) => r matches Some(s) && s@ == t,
            None => r is None,
        },
{
    let ghost nv = nodes_view(ns@);
    let total = ns.len();
    let k = match find_af_param_at(ns, j) {
        Some(k) => k,
        None => return None,
    };
    assert(find_af_param(nv, j as int, j + 1) == Some(k as int));
    let l = match find_possible_value_at(ns, k) {
        Some(l) => l,
        None => {
            assert(find_possible_value(nv, k as int, k + 1) is None);
            return None;
        },
    };
    assert(find_possible_value(nv, k as int, k + 1) == Some(l as int));
    assert(nodes_view(ns@)[l as int] == node_view(ns@[l as int]));
    match &ns[l].text {
        Some(t) => Some(t.as_str()),
        None => None,
    }
}

/// The index of the first `c` in `s`, else its length.
fn index_of_char(s: &str, c: char) -> (k: usize)
    ensures
        k as int == index_of_from(s@, c, 0),
        k <= s@.len(),
{
    let n = s.unicode_len();
    let mut k: usize = 0;
    while k < n && s.get_char(k) != c
        invariant
            0 <= k <= n,
            n == s@.len(),
            index_of_from(s@, c, 0) == index_of_from(s@, c, k as int),
        decreases n - k,
    {
        k += 1;
    }
    k
}

/// What `u8` parsing makes of `s`.
fn parse_u8_str(s: &str) -> (r: Option<u8>)
    ensures
        match parse_u8_spec(s@) {
            Some(n) => r == Some(n as u8),
            None => r is None,
        },
{
    let n = s.unicode_len();
    let from: usize = if n > 0 && s.get_char(0) == '+' {
        1
    } else {
        0
    };
    proof {
        if from == 0 {
            assert(s@.skip(0) =~= s@);
        }
    }
    match capped_digits_value(s, from) {
        Some(v) => if v <= 255 {
            Some(v as u8)
        } else {
            None
        },
        None => None,
    }
}

fn af_number_of(t: &str) -> (r: Option<u8>)
    ensures
        r == af_number(t@),
{
    let n = t.unicode_len();
    if n < 7 {
        return None;
    }
    let prefix = t.substring_char(0, 7);
    proof {
        reveal_strlit("GPIO_AF");
    }
    if !str_eq(prefix, "GPIO_AF") {
        assert(t@.take(7) =~= prefix@);
        return None;
    }
    assert(t@.take(7) =~= prefix@);
    let rest = t.substring_char(7, n);
    assert(rest@ =~= t@.skip(7));
    let k = index_of_char(rest, '_');
    let field = rest.substring_char(0, k);
    assert(field@ =~= rest@.take(k as int));
    match parse_u8_str(field) {
        Some(v) => if v <= 15 {
            Some(v)
        } else {
            None
        },
        None => None,
    }
}

fn split_signal_of(name: &str) -> (r: (String, String))
    ensures
        (r.0@, r.1@) == split_signal(name@),
{
    let n = name.unicode_len();
    let k = index_of_char(name, '_');
    if k < n {
        let a = name.substring_char(0, k);
        let b = name.substring_char(k + 1, n);
        assert(a@ =~= name@.take(k as int));
        assert(b@ =~= name@.skip(k + 1));
        (owned(a), owned(b))
    } else {
        (owned(name), owned(name))
    }
}

/// A mapping result as plain values.
pub open spec fn signal_result_view(r: Result<Option<RawMapping>, PackError>) -> Result<
    Option<(Seq<char>, u8, Seq<char>, Seq<char>)>,
    Seq<char>,
> {
    match r {
        Ok(Some(m)) => Ok(Some(raw_view(m))),
        Ok(None) => Ok(None),
        Err(PackError::Malformed(e)) => Err(e@),
    }
}

fn missing_name(tag: &str) -> (e: PackError)
    ensures
        e == PackError::Malformed(e->Malformed_0),
        e->Malformed_0@ == "<"@ + tag@ + "> missing Name attribute"@,
{
    let mut m = String::from_str("<");
    m.append(tag);
    m.append("> missing Name attribute");
    PackError::Malformed(m)
}

fn signal_mapping_at(ns: &Vec<XmlNode>, j: usize, pin: &str) -> (r: Result<Option<RawMapping>, PackError>)
    requires
        j < ns@.len(),
    ensures
        signal_result_view(r) == signal_mapping(nodes_view(ns@), j as int, pin@),
{
    let name = match node_attr(ns, j, "Name") {
        Some(v) => v,
        None => return Err(missing_name(ns[j].name.as_str())),
    };
    let t = match af_text_at(ns, j) {
        Some(t) => t,
        None => return Ok(None),
    };
    match af_number_of(t) {
        None => {
            let mut m = String::from_str("bad GPIO_AF value ");
            m.append(str_debug(t).as_str());
            Err(PackError::Malformed(m))
        },
        Some(af) => {
            let (peripheral, signal) = split_signal_of(name);
            Ok(Some(RawMapping { pin: owned(pin), af, peripheral, signal }))
        },
    }
}

/// A partial result extended by what follows it.
pub open spec fn then_rest<T>(acc: Seq<T>, r: Result<Seq<T>, Seq<char>>) -> Result<Seq<T>, Seq<char>> {
    match r {
        Ok(rest) => Ok(acc + rest),
        Err(e) => Err(e),
    }
}

fn signals_at(ns: &Vec<XmlNode>, p: usize, pin: &str, out: &mut Vec<RawMapping>) -> (r: Result<(), PackError>)
    requires
        p < ns@.len(),
    ensures
        match signals_from(nodes_view(ns@), p as int, pin@, p + 1) {
            Ok(ms) => r is Ok && raws(final(out)@) == raws(old(out)@) + ms,
            Err(e) => r matches Err(PackError::Malformed(m)) && m@ == e,
        },
{
    let ghost nv = nodes_view(ns@);
    let ghost start = raws(out@);
    let total = ns.len();
    let d = ns[p].depth;
    let mut k = p + 1;
    while k < ns.len() && ns[k].depth > d
        invariant
            p < k <= ns@.len(),
            nv == nodes_view(ns@),
            d == ns@[p as int].depth,
            raws(out@).len() >= start.len(),
            then_rest(raws(out@).skip(start.len() as int), signals_from(nv, p as int, pin@, k as int)) == then_rest(
                Seq::empty(),
                signals_from(nv, p as int, pin@, p + 1),
            ),
            raws(out@).take(start.len() as int) == start,
        decreases ns@.len() - k,
    {
        let n = &ns[k];
        let ghost acc = raws(out@).skip(start.len() as int);
        if n.depth == d + 1 && n.element && str_eq(n.name.as_str(), "PinSignal") {
            match signal_mapping_at(ns, k, pin) {
                Err(e) => {
                    proof {
                        assert(signals_from(nv, p as int, pin@, k as int) == Err::<Seq<(Seq<char>, u8, Seq<char>, Seq<char>)>, Seq<char>>(
                            e->Malformed_0@,
                        ));
                    }
                    return Err(e);
                },
                Ok(m) => {
                    let ghost before = raws(out@);
                    match m {
                        Some(x) => {
                            out.push(x);
                            proof {
                                assert(raws(out@) =~= before.push(raw_view(x)));
                                assert(raws(out@).skip(start.len() as int) =~= acc.push(raw_view(x)));
                                assert(raws(out@).take(start.len() as int) =~= before.take(start.len() as int));
                                match signals_from(nv, p as int, pin@, k + 1) {
                                    Ok(rest) => {
                                        assert(acc + (seq![raw_view(x)] + rest) =~= acc.push(raw_view(x)) + rest);
                                    },
                                    Err(_) => {},
                                }
                            }
                        },
                        None => {
                            proof {
                                match signals_from(nv, p as int, pin@, k + 1) {
                                    Ok(rest) => {},
                                    Err(_) => {},
                                }
                            }
                        },
                    }
                },
            }
        }
        k += 1;
    }
    proof {
        let acc = raws(out@).skip(start.len() as int);
        assert(signals_from(nv, p as int, pin@, k as int) == Ok::<Seq<(Seq<char>, u8, Seq<char>, Seq<char>)>, Seq<char>>(Seq::empty()));
        assert(acc + Seq::<(Seq<char>, u8, Seq<char>, Seq<char>)>::empty() =~= acc);
        assert(Seq::<(Seq<char>, u8, Seq<char>, Seq<char>)>::empty() + acc =~= acc);
        match signals_from(nv, p as int, pin@, p + 1) {
            Ok(ms) => {
                assert(Seq::<(Seq<char>, u8, Seq<char>, Seq<char>)>::empty() + ms =~= ms);
                assert(raws(out@) =~= raws(out@).take(start.len() as int) + raws(out@).skip(start.len() as int));
            },
            Err(_) => {},
        }
    }
    Ok(())
}


/// The mappings of a GPIO modes document given as its nodes: for every
/// `GPIO_Pin` element whose `Name` is a pin (`PC14-OSC32_IN` counts as
/// `PC14`; entries such as `PDR_ON` are skipped), one mapping per
/// `PinSignal` child that carries a `GPIO_AF` value, its name split at the
/// first `_` into peripheral and signal (a name without one, such as `CEC`,
/// is both). A missing `Name` or a malformed AF value is an error.
pub fn gpio_modes_from_nodes(nodes: &Vec<XmlNode>) -> (r: Result<Vec<RawMapping>, PackError>)
    ensures
        match modes_from(nodes_view(nodes@), 0) {
            Ok(ms) => r matches Ok(v) && raws(v@) == ms,
            Err(e) => r matches Err(PackError::Malformed(m)) && m@ == e,
        },
{
    let ghost nv = nodes_view(nodes@);
    let mut out: Vec<RawMapping> = Vec::new();
    let mut i: usize = 0;
    assert(Seq::<(Seq<char>, u8, Seq<char>, Seq<char>)>::empty() + raws(out@) =~= raws(out@));
    while i < nodes.len()
        invariant
            0 <= i <= nodes@.len(),
            nv == nodes_view(nodes@),
            then_rest(raws(out@), modes_from(nv, i as int)) == then_rest(Seq::empty(), modes_from(nv, 0)),
        decreases nodes@.len() - i,
    {
        let n = &nodes[i];
        assert(nv[i as int] == node_view(nodes@[i as int]));
        if n.element && str_eq(n.name.as_str(), "GPIO_Pin") {
            let ghost before = raws(out@);
            let name = match node_attr(nodes, i, "Name") {
                Some(v) => v,
                None => return Err(missing_name(n.name.as_str())),
            };
            match normalize_pin_name(name) {
                None => {
                    proof {
                        match modes_from(nv, i + 1) {
                            Ok(rest) => {
                                assert(Seq::<(Seq<char>, u8, Seq<char>, Seq<char>)>::empty() + rest =~= rest);
                            },
                            Err(_) => {},
                        }
                    }
                },
                Some(pin) => {
                    match signals_at(nodes, i, pin.as_str(), &mut out) {
                        Err(e) => return Err(e),
                        Ok(()) => {
                            proof {
                                match modes_from(nv, i + 1) {
                                    Ok(rest) => {
                                        let ms = pin_mappings(nv, i as int)->Ok_0;
                                        assert(before + (ms + rest) =~= (before + ms) + rest);
                                    },
                                    Err(_) => {},
                                }
                            }
                        },
                    }
                },
            }
        }
        i += 1;
    }
    proof {
        assert(raws(out@) + Seq::<(Seq<char>, u8, Seq<char>, Seq<char>)>::empty() =~= raws(out@));
        match modes_from(nv, 0) {
            Ok(ms) => {
                assert(Seq::<(Seq<char>, u8, Seq<char>, Seq<char>)>::empty() + ms =~= ms);
            },
            Err(_) => {},
        }
    }
    Ok(out)
}

/// Parse a GPIO modes file (`GPIO-*_Modes.xml`) into raw mappings; a
/// document that does not parse is malformed pack data.
pub fn parse_gpio_modes(xml: &str) -> (r: Result<Vec<RawMapping>, PackError>)
    ensures
        match xml_parse(xml@) {
            Err(e) => r matches Err(PackError::Malformed(m)) && m@ == "gpio modes xml: "@ + e,
            Ok(ns) => match modes_from(ns, 0) {
                Ok(ms) => r matches Ok(v) && raws(v@) == ms,
                Err(e) => r matches Err(PackError::Malformed(m)) && m@ == e,
            },
        },
{
    match xml_nodes(xml) {
        Err(e) => {
            let mut m = String::from_str("gpio modes xml: ");
            m.append(e.as_str());
            Err(PackError::Malformed(m))
        },
        Ok(nodes) => gpio_modes_from_nodes(&nodes),
    }
}

/// The pins a package document bonds out, given as its nodes: the `Name`
/// of every `Pin` element that is a pin, normalized (`PC14-OSC32_IN` →
/// `PC14`); power, reset and boot balls are left out.
pub fn package_pins_from_nodes(nodes: &Vec<XmlNode>) -> (r: Vec<String>)
    ensures
        names(r@) == package_pins_from(nodes_view(nodes@), 0),
{
    let ghost nv = nodes_view(nodes@);
    let mut out: Vec<String> = Vec::new();
    let mut i: usize = 0;
    assert(Seq::<Seq<char>>::empty() + package_pins_from(nv, 0) =~= package_pins_from(nv, 0));
    while i < nodes.len()
        invariant
            0 <= i <= nodes@.len(),
            nv == nodes_view(nodes@),
            names(out@) + package_pins_from(nv, i as int) == package_pins_from(nv, 0),
        decreases nodes@.len() - i,
    {
        let n = &nodes[i];
        assert(nv[i as int] == node_view(nodes@[i as int]));
        let ghost before = names(out@);
        if n.element && str_eq(n.name.as_str(), "Pin") {
            match node_attr(nodes, i, "Name") {
                Some(name) => match normalize_pin_name(name) {
                    Some(b) => {
                        out.push(b);
                        proof {
                            let rest = package_pins_from(nv, i + 1);
                            assert(names(out@) =~= before.push(names(out@).last()));
                            assert(before + (seq![names(out@).last()] + rest) =~= names(out@) + rest);
                        }
                    },
                    None => {},
                },
                None => {},
            }
        }
        i += 1;
    }
    assert(names(out@) + Seq::<Seq<char>>::empty() =~= names(out@));
    out
}

/// Parse an MCU package file and return the GPIO pins that physically exist
/// on the package, normalized.
pub fn parse_package_pins(xml: &str) -> (r: Result<Vec<String>, PackError>)
    ensures
        match xml_parse(xml@) {
            Err(e) => r matches Err(PackError::Malformed(m)) && m@ == "mcu xml: "@ + e,
            Ok(ns) => r matches Ok(v) && names(v@) == package_pins_from(ns, 0),
        },
{
    match xml_nodes(xml) {
        Err(e) => {
            let mut m = String::from_str("mcu xml: ");
            m.append(e.as_str());
            Err(PackError::Malformed(m))
        },
        Ok(nodes) => Ok(package_pins_from_nodes(&nodes)),
    }
}

} // verus!
