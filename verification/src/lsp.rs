//! The analysis behind the `stm32.toml` language server: diagnostics placed
//! at the most relevant source range, hover over a pin name, and pin-name
//! completion, each a pure function of the document text (plus a cursor
//! position). Offsets are byte offsets into the UTF-8 text; positions are
//! `(line, UTF-16 column)` as the protocol counts them.

use vstd::prelude::*;
use vstd::string::*;
use crate::compiler::config::Peripheral;
use crate::compiler::solver::{conflict_message, Conflict, Severity, SignalRef};
use crate::db::{all_digits, digits_value, parse_pin_spec, parse_u8_spec, pin_name, port_letter, AfMapping, Database, Pin, Port};
use crate::text::{dec_digits, seq_lt};
use crate::text::{ascii_upper, owned, str_eq, str_lt, to_ascii_uppercase, u64_to_string};

verus! {

/// A position in the document: zero-based line and UTF-16 column.
#[derive(Debug, Clone, Copy, PartialEq, Eq, Structural)]
pub struct Position {
    pub line: u32,
    pub character: u32,
}

/// A range of the document.
#[derive(Debug, Clone, Copy, PartialEq, Eq, Structural)]
pub struct LspRange {
    pub start: Position,
    pub end: Position,
}

/// Whether `b` continues a multi-byte UTF-8 sequence.
pub open spec fn is_continuation(b: u8) -> bool {
    0x80 <= b && b < 0xC0
}

/// The UTF-16 code units a byte contributes: none for a continuation
/// byte, two for the lead byte of a four-byte sequence, else one.
pub open spec fn units_of(b: u8) -> nat {
    if is_continuation(b) {
        0
    } else if b >= 0xF0 {
        2
    } else {
        1
    }
}

/// The UTF-16 length of the characters encoded in `s`.
pub open spec fn utf16_len(s: Seq<u8>) -> nat
    decreases s.len(),
{
    if s.len() == 0 {
        0
    } else {
        utf16_len(s.drop_last()) + units_of(s.last())
    }
}

/// Where the lines of `s` start: 0, then just after every `\n`.
pub open spec fn line_starts(s: Seq<u8>) -> Seq<int>
    decreases s.len(),
{
    if s.len() == 0 {
        seq![0int]
    } else {
        line_starts(s.drop_last()) + if s.last() == 10 {
            seq![s.len() as int]
        } else {
            Seq::<int>::empty()
        }
    }
}

/// Counting up from line `l`, the line holding byte `offset`: the line
/// before the first one that starts after it.
pub open spec fn line_from(starts: Seq<int>, l: int, offset: int) -> int
    decreases starts.len() - l,
{
    if l >= starts.len() || starts[l] > offset {
        l - 1
    } else {
        line_from(starts, l + 1, offset)
    }
}

/// The line holding byte `offset`.
pub open spec fn line_of(starts: Seq<int>, offset: int) -> int {
    line_from(starts, 1, offset)
}

/// The position of byte `offset` (clamped to the text).
pub open spec fn position_spec(text: Seq<u8>, offset: int) -> Position {
    let o = if offset < text.len() {
        offset
    } else {
        text.len() as int
    };
    let starts = line_starts(text);
    let line = line_of(starts, o);
    Position { line: line as u32, character: utf16_len(text.subrange(starts[line], o)) as u32 }
}

/// Within `text[from..to]`, the first character start at which the UTF-16
/// column (counted from `from`) has reached `target`; `to` if none.
pub open spec fn column_offset(text: Seq<u8>, from: int, p: int, to: int, col: nat, target: nat) -> int
    decreases to - p,
{
    if p >= to {
        to
    } else if !is_continuation(text[p]) && col >= target {
        p
    } else {
        column_offset(text, from, p + 1, to, col + units_of(text[p]), target)
    }
}

/// The byte offset of a position: the end of the text past the last line;
/// else on its line, the first character start whose column reaches
/// `character`, or the line's end.
pub open spec fn offset_spec(text: Seq<u8>, position: Position) -> int {
    let starts = line_starts(text);
    let line = position.line as int;
    if line >= starts.len() {
        text.len() as int
    } else {
        let start = starts[line];
        let end = if line + 1 < starts.len() {
            starts[line + 1] - 1
        } else {
            text.len() as int
        };
        column_offset(text, start, start, end, 0, position.character as nat)
    }
}

proof fn lemma_line_starts_facts(s: Seq<u8>)
    ensures
        line_starts(s).len() >= 1,
        line_starts(s)[0] == 0,
        forall|i: int| 0 <= i < line_starts(s).len() ==> 0 <= #[trigger] line_starts(s)[i] <= s.len(),
        forall|i: int, j: int| 0 <= i < j < line_starts(s).len() ==> #[trigger] line_starts(s)[i] < #[trigger] line_starts(s)[j],
        forall|i: int| 1 <= i < line_starts(s).len() ==> s[#[trigger] line_starts(s)[i] - 1] == 10,
    decreases s.len(),
{
    if s.len() > 0 {
        lemma_line_starts_facts(s.drop_last());
        let prev = line_starts(s.drop_last());
        assert forall|i: int| 1 <= i < line_starts(s).len() implies s[#[trigger] line_starts(s)[i] - 1] == 10 by {
            if i < prev.len() {
                assert(line_starts(s)[i] == prev[i]);
                assert(s[prev[i] - 1] == s.drop_last()[prev[i] - 1]);
            }
        }
        assert forall|i: int, j: int| 0 <= i < j < line_starts(s).len() implies #[trigger] line_starts(s)[i]
            < #[trigger] line_starts(s)[j] by {
            if j >= prev.len() {
                assert(line_starts(s)[i] == prev[i]);
            } else {
                assert(line_starts(s)[i] == prev[i] && line_starts(s)[j] == prev[j]);
            }
        }
        assert forall|i: int| 0 <= i < line_starts(s).len() implies 0 <= #[trigger] line_starts(s)[i] <= s.len() by {
            if i < prev.len() {
                assert(line_starts(s)[i] == prev[i]);
            }
        }
    }
}

/// The line starts of a document.
fn line_index(bytes: &[u8]) -> (starts: Vec<usize>)
    ensures
        starts@.len() == line_starts(bytes@).len(),
        forall|i: int| 0 <= i < starts@.len() ==> #[trigger] starts@[i] as int == line_starts(bytes@)[i],
{
    let mut starts: Vec<usize> = Vec::new();
    starts.push(0);
    let mut i: usize = 0;
    assert(bytes@.take(0) =~= Seq::<u8>::empty());
    while i < bytes.len()
        invariant
            0 <= i <= bytes@.len(),
            starts@.len() == line_starts(bytes@.take(i as int)).len(),
            forall|k: int| 0 <= k < starts@.len() ==> #[trigger] starts@[k] as int == line_starts(bytes@.take(i as int))[k],
        decreases bytes@.len() - i,
    {
        let ghost prev = line_starts(bytes@.take(i as int));
        assert(bytes@.take(i + 1).drop_last() =~= bytes@.take(i as int));
        assert(bytes@.take(i + 1).last() == bytes@[i as int]);
        if bytes[i] == 10 {
            starts.push(i + 1);
        }
        assert forall|k: int| 0 <= k < starts@.len() implies #[trigger] starts@[k] as int == line_starts(bytes@.take(i + 1))[k] by {
            if k < prev.len() {
                assert(line_starts(bytes@.take(i + 1))[k] == prev[k]);
            }
        }
        i += 1;
    }
    assert(bytes@.take(bytes@.len() as int) =~= bytes@);
    starts
}

/// The UTF-16 length of `bytes[from..to]`.
fn utf16_count(bytes: &[u8], from: usize, to: usize) -> (n: u128)
    requires
        from <= to <= bytes@.len(),
    ensures
        n as nat == utf16_len(bytes@.subrange(from as int, to as int)),
{
    let mut n: u128 = 0;
    let mut p = from;
    assert(bytes@.subrange(from as int, from as int) =~= Seq::<u8>::empty());
    while p < to
        invariant
            from <= p <= to <= bytes@.len(),
            n as nat == utf16_len(bytes@.subrange(from as int, p as int)),
            n <= 2 * (p - from),
        decreases to - p,
    {
        assert(bytes@.subrange(from as int, p + 1).drop_last() =~= bytes@.subrange(from as int, p as int));
        let b = bytes[p];
        if !(0x80 <= b && b < 0xC0) {
            if b >= 0xF0 {
                n = n + 2;
            } else {
                n = n + 1;
            }
        }
        p += 1;
    }
    n
}

proof fn lemma_line_from_bounds(starts: Seq<int>, l: int, offset: int)
    requires
        1 <= l <= starts.len(),
    ensures
        0 <= l - 1 <= line_from(starts, l, offset) < starts.len(),
    decreases starts.len() - l,
{
    if !(l >= starts.len() || starts[l] > offset) {
        lemma_line_from_bounds(starts, l + 1, offset);
    }
}

/// The position of byte `offset` of `bytes`, given its line starts.
fn position_in(bytes: &[u8], starts: &Vec<usize>, offset: usize) -> (p: Position)
    requires
        starts@.len() == line_starts(bytes@).len(),
        forall|i: int| 0 <= i < starts@.len() ==> #[trigger] starts@[i] as int == line_starts(bytes@)[i],
    ensures
        p == position_spec(bytes@, offset as int),
{
    proof {
        lemma_line_starts_facts(bytes@);
    }
    let ghost ss = line_starts(bytes@);
    let o = if offset < bytes.len() {
        offset
    } else {
        bytes.len()
    };
    let mut l: usize = 1;
    while l < starts.len() && starts[l] <= o
        invariant
            1 <= l <= starts@.len(),
            starts@.len() == ss.len(),
            ss == line_starts(bytes@),
            forall|i: int| 0 <= i < starts@.len() ==> #[trigger] starts@[i] as int == ss[i],
            line_of(ss, o as int) == line_from(ss, l as int, o as int),
            l > 1 ==> starts@[l - 1] <= o,
        decreases starts@.len() - l,
    {
        l += 1;
    }
    let line = l - 1;
    proof {
        lemma_line_from_bounds(ss, 1, o as int);
    }
    let start = starts[line];
    let character = utf16_count(bytes, start, o);
    Position { line: line as u32, character: character as u32 }
}


/// The byte offset of a position in `bytes`, given its line starts.
fn offset_in(bytes: &[u8], starts: &Vec<usize>, position: Position) -> (o: usize)
    requires
        starts@.len() == line_starts(bytes@).len(),
        forall|i: int| 0 <= i < starts@.len() ==> #[trigger] starts@[i] as int == line_starts(bytes@)[i],
    ensures
        o as int == offset_spec(bytes@, position),
        o <= bytes@.len(),
{
    proof {
        lemma_line_starts_facts(bytes@);
    }
    let line = position.line as usize;
    if line >= starts.len() {
        return bytes.len();
    }
    let start = starts[line];
    let end = if line + 1 < starts.len() {
        starts[line + 1] - 1
    } else {
        bytes.len()
    };
    let target = position.character as u128;
    let mut p = start;
    let mut col: u128 = 0;
    while p < end
        invariant
            start <= p <= end <= bytes@.len(),
            offset_spec(bytes@, position) == column_offset(bytes@, start as int, start as int, end as int, 0, target as nat),
            col <= 2 * (p - start),
            column_offset(bytes@, start as int, start as int, end as int, 0, target as nat) == column_offset(
                bytes@,
                start as int,
                p as int,
                end as int,
                col as nat,
                target as nat,
            ),
        decreases end - p,
    {
        let b = bytes[p];
        let cont = 0x80 <= b && b < 0xC0;
        if !cont && col >= target {
            return p;
        }
        if !cont {
            if b >= 0xF0 {
                col = col + 2;
            } else {
                col = col + 1;
            }
        }
        p += 1;
    }
    end
}

/// Whether `pat` occurs in `hay` at `i`.
pub open spec fn matches_at(hay: Seq<u8>, pat: Seq<u8>, i: int) -> bool {
    0 <= i && i + pat.len() <= hay.len() && hay.subrange(i, i + pat.len()) == pat
}

/// The first occurrence of `pat` in `hay` at or after `i` that ends by `end`.
pub open spec fn find_in(hay: Seq<u8>, pat: Seq<u8>, i: int, end: int) -> Option<int>
    decreases end + 1 - i,
{
    if i < 0 || i + pat.len() > end || end > hay.len() {
        None
    } else if matches_at(hay, pat, i) {
        Some(i)
    } else {
        find_in(hay, pat, i + 1, end)
    }
}

/// The last occurrence of `pat` in `hay` that ends by `end`.
pub open spec fn rfind_in(hay: Seq<u8>, pat: Seq<u8>, end: int) -> Option<int>
    decreases end + 1,
{
    if end < pat.len() || end > hay.len() {
        None
    } else if matches_at(hay, pat, end - pat.len()) {
        Some(end - pat.len())
    } else {
        rfind_in(hay, pat, end - 1)
    }
}

fn matches_here(hay: &[u8], pat: &[u8], i: usize) -> (r: bool)
    requires
        i + pat@.len() <= hay@.len(),
    ensures
        r == matches_at(hay@, pat@, i as int),
{
    let n = hay.len();
    let mut j: usize = 0;
    while j < pat.len()
        invariant
            n == hay@.len(),
            0 <= j <= pat@.len(),
            i + pat@.len() <= hay@.len(),
            forall|t: int| 0 <= t < j ==> hay@[i + t] == pat@[t],
        decreases pat@.len() - j,
    {
        if hay[i + j] != pat[j] {
            assert(hay@.subrange(i as int, i + pat@.len())[j as int] != pat@[j as int]);
            return false;
        }
        j += 1;
    }
    assert(hay@.subrange(i as int, i + pat@.len()) =~= pat@);
    true
}

/// The first occurrence of `pat` at or after `from` that ends by `end`.
fn find_bytes(hay: &[u8], pat: &[u8], from: usize, end: usize) -> (r: Option<usize>)
    requires
        end <= hay@.len(),
    ensures
        match find_in(hay@, pat@, from as int, end as int) {
            Some(i) => r == Some(i as usize) && from <= i && i + pat@.len() <= end,
            None => r is None,
        },
{
    proof {
        lemma_find_in_bounds(hay@, pat@, from as int, end as int);
    }
    let m = pat.len();
    let mut i = from;
    while i <= end && m <= end - i
        invariant
            m == pat@.len(),
            end <= hay@.len(),
            from <= i,
            find_in(hay@, pat@, from as int, end as int) == find_in(hay@, pat@, i as int, end as int),
        decreases end - i,
    {
        if matches_here(hay, pat, i) {
            return Some(i);
        }
        assert(m > 0) by {
            if m == 0 {
                assert(hay@.subrange(i as int, i as int) =~= pat@);
            }
        }
        i += 1;
    }
    None
}

/// The last occurrence of `pat` that ends by `end`.
fn rfind_bytes(hay: &[u8], pat: &[u8], end: usize) -> (r: Option<usize>)
    requires
        end <= hay@.len(),
    ensures
        match rfind_in(hay@, pat@, end as int) {
            Some(i) => r == Some(i as usize),
            None => r is None,
        },
{
    let m = pat.len();
    let mut e = end;
    while e >= m
        invariant
            m == pat@.len(),
            e <= end <= hay@.len(),
            rfind_in(hay@, pat@, end as int) == rfind_in(hay@, pat@, e as int),
        decreases e,
    {
        if matches_here(hay, pat, e - m) {
            return Some(e - m);
        }
        assert(m > 0) by {
            if m == 0 {
                assert(hay@.subrange(e as int, e as int) =~= pat@);
            }
        }
        if e == 0 {
            return None;
        }
        e -= 1;
    }
    None
}


/// The bytes of `[peripherals.<key>]`.
pub open spec fn header_bytes(key: Seq<char>) -> Seq<u8> {
    vstd::utf8::encode_utf8("[peripherals."@ + key + "]"@)
}

/// The span of the `[peripherals.<key>]` header, if present.
pub open spec fn header_span_spec(text: Seq<u8>, key: Seq<char>) -> Option<(int, int)> {
    match find_in(text, header_bytes(key), 0, text.len() as int) {
        Some(st) => Some((st, st + header_bytes(key).len())),
        None => None,
    }
}

/// A newline followed by `[`: where the next section begins.
pub open spec fn section_break() -> Seq<u8> {
    seq![10u8, 91u8]
}

/// The region of a `[peripherals.<key>]` table: from its header to the next
/// section header or the end of the text.
pub open spec fn table_region_spec(text: Seq<u8>, key: Seq<char>) -> Option<(int, int)> {
    match find_in(text, header_bytes(key), 0, text.len() as int) {
        Some(st) => Some(
            (
                st,
                match find_in(text, section_break(), st + header_bytes(key).len(), text.len() as int) {
                    Some(e) => e,
                    None => text.len() as int,
                },
            ),
        ),
        None => None,
    }
}

/// The bytes of `value` between two `q` quotes.
pub open spec fn quoted(q: char, value: Seq<char>) -> Seq<u8> {
    vstd::utf8::encode_utf8(seq![q] + value + seq![q])
}

/// The span of `value` quoted (double quotes first, then single) inside
/// `region`; the span covers the value, not the quotes.
pub open spec fn find_quoted_spec(text: Seq<u8>, region: (int, int), value: Seq<char>) -> Option<(int, int)> {
    let n = vstd::utf8::encode_utf8(value).len();
    match find_in(text, quoted('"', value), region.0, region.1) {
        Some(i) => Some((i + 1, i + 1 + n)),
        None => match find_in(text, quoted('\'', value), region.0, region.1) {
            Some(i) => Some((i + 1, i + 1 + n)),
            None => None,
        },
    }
}

/// The first line of the text.
pub open spec fn whole_first_line(text: Seq<u8>) -> (int, int) {
    (0, match find_in(text, seq![10u8], 0, text.len() as int) {
        Some(i) => i,
        None => text.len() as int,
    })
}

fn header_pattern(key: &str) -> (r: String)
    ensures
        r@ == "[peripherals."@ + key@ + "]"@,
{
    let mut h = String::from_str("[peripherals.");
    h.append(key);
    h.append("]");
    h
}

/// The span of the `[peripherals.<key>]` header.
fn header_span(bytes: &[u8], key: &str) -> (r: Option<(usize, usize)>)
    ensures
        match header_span_spec(bytes@, key@) {
            Some((a, b)) => r == Some((a as usize, b as usize)) && 0 <= a <= b <= bytes@.len(),
            None => r is None,
        },
{
    let h = header_pattern(key);
    let hb = h.as_str().as_bytes();
    match find_bytes(bytes, hb, 0, bytes.len()) {
        Some(st) => {
            proof {
                lemma_find_in_bounds(bytes@, hb@, 0, bytes@.len() as int);
            }
            Some((st, st + hb.len()))
        },
        None => None,
    }
}

/// A match found by `find_in` lies inside its window.
proof fn lemma_find_in_bounds(hay: Seq<u8>, pat: Seq<u8>, i: int, end: int)
    ensures
        find_in(hay, pat, i, end) matches Some(k) ==> i <= k && k + pat.len() <= end && end <= hay.len() && matches_at(hay, pat, k),
    decreases end + 1 - i,
{
    if !(i < 0 || i + pat.len() > end || end > hay.len()) && !matches_at(hay, pat, i) {
        lemma_find_in_bounds(hay, pat, i + 1, end);
    }
}

/// The region of the `[peripherals.<key>]` table.
fn table_region(bytes: &[u8], key: &str) -> (r: Option<(usize, usize)>)
    ensures
        match table_region_spec(bytes@, key@) {
            Some((a, b)) => r == Some((a as usize, b as usize)) && 0 <= a <= b <= bytes@.len(),
            None => r is None,
        },
{
    let h = header_pattern(key);
    let hb = h.as_str().as_bytes();
    match find_bytes(bytes, hb, 0, bytes.len()) {
        Some(st) => {
            proof {
                lemma_find_in_bounds(bytes@, hb@, 0, bytes@.len() as int);
            }
            let body = st + hb.len();
            let brk: Vec<u8> = vec![10u8, 91u8];
            assert(brk@ =~= section_break());
            let end = match find_bytes(bytes, brk.as_slice(), body, bytes.len()) {
                Some(e) => {
                    proof {
                        lemma_find_in_bounds(bytes@, brk@, body as int, bytes@.len() as int);
                    }
                    e
                },
                None => bytes.len(),
            };
            Some((st, end))
        },
        None => None,
    }
}

fn quote_pattern(q: &str, value: &str) -> (r: String)
    ensures
        r@ == q@ + value@ + q@,
{
    let mut p = String::from_str(q);
    p.append(value);
    p.append(q);
    p
}

/// The span of `value`, quoted, inside `region`.
fn find_quoted(bytes: &[u8], region: (usize, usize), value: &str) -> (r: Option<(usize, usize)>)
    requires
        region.0 <= region.1 <= bytes@.len(),
    ensures
        match find_quoted_spec(bytes@, (region.0 as int, region.1 as int), value@) {
            Some((a, b)) => r == Some((a as usize, b as usize)) && region.0 <= a <= b <= region.1,
            None => r is None,
        },
{
    proof {
        reveal_strlit("\"");
        reveal_strlit("'");
    }
    let n = value.len();
    let dq = quote_pattern("\"", value);
    assert(dq@ =~= seq!['"'] + value@ + seq!['"']);
    let dqb = dq.as_str().as_bytes();
    match find_bytes(bytes, dqb, region.0, region.1) {
        Some(i) => {
            proof {
                lemma_find_in_bounds(bytes@, dqb@, region.0 as int, region.1 as int);
                lemma_quoted_len('"', value@);
            }
            return Some((i + 1, i + 1 + n));
        },
        None => {},
    }
    let sq = quote_pattern("'", value);
    assert(sq@ =~= seq!['\''] + value@ + seq!['\'']);
    let sqb = sq.as_str().as_bytes();
    match find_bytes(bytes, sqb, region.0, region.1) {
        Some(i) => {
            proof {
                lemma_find_in_bounds(bytes@, sqb@, region.0 as int, region.1 as int);
                lemma_quoted_len('\'', value@);
            }
            Some((i + 1, i + 1 + n))
        },
        None => None,
    }
}

/// A quoted value is two bytes longer than the value (the quotes are ASCII).
proof fn lemma_quoted_len(q: char, value: Seq<char>)
    requires
        q == '"' || q == '\'',
    ensures
        quoted(q, value).len() == vstd::utf8::encode_utf8(value).len() + 2,
{
    lemma_encode_concat(seq![q], value);
    lemma_encode_concat(seq![q] + value, seq![q]);
    assert(seq![q].drop_first() =~= Seq::<char>::empty());
    assert(q as u32 == 34 || q as u32 == 39);
    assert(vstd::utf8::encode_scalar(q as u32).len() == 1);
    assert(vstd::utf8::encode_utf8(seq![q]) == vstd::utf8::encode_scalar(q as u32) + vstd::utf8::encode_utf8(seq![q].drop_first()));
    assert(vstd::utf8::encode_utf8(seq![q]).len() == 1);
}

/// The encoding of a concatenation is the concatenation of the encodings.
proof fn lemma_encode_concat(a: Seq<char>, b: Seq<char>)
    ensures
        vstd::utf8::encode_utf8(a + b) == vstd::utf8::encode_utf8(a) + vstd::utf8::encode_utf8(b),
    decreases a.len(),
{
    if a.len() == 0 {
        assert(a + b =~= b);
        assert(vstd::utf8::encode_utf8(a) + vstd::utf8::encode_utf8(b) =~= vstd::utf8::encode_utf8(b));
    } else {
        assert((a + b).drop_first() =~= a.drop_first() + b);
        assert((a + b)[0] == a[0]);
        lemma_encode_concat(a.drop_first(), b);
        assert(vstd::utf8::encode_utf8(a + b) =~= vstd::utf8::encode_utf8(a) + vstd::utf8::encode_utf8(b));
    }
}

/// The first line of the text.
fn first_line(bytes: &[u8]) -> (r: (usize, usize))
    ensures
        r.0 as int == whole_first_line(bytes@).0 && r.1 as int == whole_first_line(bytes@).1,
{
    let nl: Vec<u8> = vec![10u8];
    assert(nl@ =~= seq![10u8]);
    let pat = nl.as_slice();
    assert(pat@ == seq![10u8]);
    let found = find_bytes(bytes, pat, 0, bytes.len());
    match found {
        Some(i) => {
            (0, i)
        },
        None => (0, bytes.len()),
    }
}


/// The instance key a conflict's peripheral name came from: the last table
/// whose key, upper-cased, is that name.
pub open spec fn key_for(entries: Seq<(String, Peripheral)>, peripheral: Seq<char>) -> Option<Seq<char>>
    decreases entries.len(),
{
    if entries.len() == 0 {
        None
    } else if entries.last().0@.map_values(|c: char| ascii_upper(c)) == peripheral {
        Some(entries.last().0@)
    } else {
        key_for(entries.drop_last(), peripheral)
    }
}

/// The table region of a peripheral, through its instance key.
pub open spec fn region_of(text: Seq<u8>, entries: Seq<(String, Peripheral)>, peripheral: Seq<char>) -> Option<(int, int)> {
    match key_for(entries, peripheral) {
        Some(k) => table_region_spec(text, k),
        None => None,
    }
}

/// The quoted `value` inside the peripheral's table, else the table.
pub open spec fn value_site(text: Seq<u8>, entries: Seq<(String, Peripheral)>, peripheral: Seq<char>, value: Seq<char>) -> Option<
    (int, int),
> {
    match region_of(text, entries, peripheral) {
        Some(r) => match find_quoted_spec(text, r, value) {
            Some(sp) => Some(sp),
            None => Some(r),
        },
        None => None,
    }
}

/// One site, or the first line when there is none.
pub open spec fn single(text: Seq<u8>, site: Option<(int, int)>) -> Seq<(int, int)> {
    seq![
        match site {
            Some(sp) => sp,
            None => whole_first_line(text),
        },
    ]
}

/// The colliding pin's site in each user's table, in user order.
pub open spec fn collision_sites(text: Seq<u8>, entries: Seq<(String, Peripheral)>, pin: Seq<char>, users: Seq<SignalRef>) -> Seq<
    (int, int),
>
    decreases users.len(),
{
    if users.len() == 0 {
        Seq::empty()
    } else {
        collision_sites(text, entries, pin, users.drop_last()) + match value_site(text, entries, users.last().peripheral@, pin) {
            Some(sp) => seq![sp],
            None => Seq::empty(),
        }
    }
}

/// The spans to underline for a conflict: a collision underlines the pin in
/// every colliding table; a bad pin or value, its quoted value (or its
/// table); a missing pin or disabled clock domain, the table's header;
/// anything else, or a site that cannot be found, the first line.
pub open spec fn conflict_spans_spec(text: Seq<u8>, entries: Seq<(String, Peripheral)>, c: Conflict) -> Seq<(int, int)> {
    match c {
        Conflict::PinCollision { pin, users } => {
            let sites = collision_sites(text, entries, pin_name(pin), users@);
            if sites.len() == 0 {
                seq![whole_first_line(text)]
            } else {
                sites
            }
        },
        Conflict::AfMismatch { pin, peripheral, .. } => single(text, value_site(text, entries, peripheral@, pin_name(pin))),
        Conflict::InvalidPin { peripheral, value, .. } => single(text, value_site(text, entries, peripheral@, value@)),
        Conflict::MissingPin { peripheral, .. } => single(
            text,
            match key_for(entries, peripheral@) {
                Some(k) => header_span_spec(text, k),
                None => None,
            },
        ),
        Conflict::ClockDomainDisabled { peripheral, .. } => single(
            text,
            match key_for(entries, peripheral@) {
                Some(k) => header_span_spec(text, k),
                None => None,
            },
        ),
        _ => seq![whole_first_line(text)],
    }
}

fn key_of<'a>(entries: &'a Vec<(String, Peripheral)>, peripheral: &str) -> (r: Option<&'a str>)
    ensures
        match key_for(entries@, peripheral@) {
            Some(k) => r matches Some(x) && x@ == k,
            None => r is None,
        },
{
    let mut i = entries.len();
    assert(entries@.take(i as int) =~= entries@);
    while i > 0
        invariant
            i <= entries@.len(),
            key_for(entries@, peripheral@) == key_for(entries@.take(i as int), peripheral@),
        decreases i,
    {
        let up = to_ascii_uppercase(entries[i - 1].0.as_str());
        assert(entries@.take(i as int).last() == entries@[i - 1]);
        if str_eq(up.as_str(), peripheral) {
            return Some(entries[i - 1].0.as_str());
        }
        assert(entries@.take(i as int).drop_last() =~= entries@.take(i - 1));
        i -= 1;
    }
    None
}

fn value_site_of(bytes: &[u8], entries: &Vec<(String, Peripheral)>, peripheral: &str, value: &str) -> (r: Option<(usize, usize)>)
    ensures
        match value_site(bytes@, entries@, peripheral@, value@) {
            Some((a, b)) => r == Some((a as usize, b as usize)) && 0 <= a <= b <= bytes@.len(),
            None => r is None,
        },
{
    let _len = bytes.len();
    let key = match key_of(entries, peripheral) {
        Some(k) => k,
        None => return None,
    };
    let region = match table_region(bytes, key) {
        Some(r) => r,
        None => return None,
    };
    match find_quoted(bytes, region, value) {
        Some(sp) => Some(sp),
        None => Some(region),
    }
}

fn header_of(bytes: &[u8], entries: &Vec<(String, Peripheral)>, peripheral: &str) -> (r: Option<(usize, usize)>)
    ensures
        match (match key_for(entries@, peripheral@) {
            Some(k) => header_span_spec(bytes@, k),
            None => None,
        }) {
            Some((a, b)) => r == Some((a as usize, b as usize)) && 0 <= a <= b <= bytes@.len(),
            None => r is None,
        },
{
    match key_of(entries, peripheral) {
        Some(k) => header_span(bytes, k),
        None => None,
    }
}

fn single_site(bytes: &[u8], site: Option<(usize, usize)>) -> (r: Vec<(usize, usize)>)
    ensures
        r@.len() == 1,
        r@[0].0 as int == match site {
            Some(sp) => sp.0 as int,
            None => whole_first_line(bytes@).0,
        },
        r@[0].1 as int == match site {
            Some(sp) => sp.1 as int,
            None => whole_first_line(bytes@).1,
        },
{
    match site {
        Some(sp) => vec![sp],
        None => vec![first_line(bytes)],
    }
}

/// Spans as plain values.
pub open spec fn spans_view(v: Seq<(usize, usize)>) -> Seq<(int, int)> {
    v.map_values(|x: (usize, usize)| (x.0 as int, x.1 as int))
}

/// The spans to underline for `c`.
fn conflict_spans(bytes: &[u8], entries: &Vec<(String, Peripheral)>, c: &Conflict) -> (r: Vec<(usize, usize)>)
    ensures
        spans_view(r@) == conflict_spans_spec(bytes@, entries@, *c),
{
    let len = bytes.len();
    match c {
        Conflict::PinCollision { pin, users } => {
            let name = pin.to_string();
            let mut spans: Vec<(usize, usize)> = Vec::new();
            let mut k: usize = 0;
            assert(users@.take(0) =~= Seq::<SignalRef>::empty());
            while k < users.len()
                invariant
                    0 <= k <= users@.len(),
                    len == bytes@.len(),
                    name@ == pin_name(*pin),
                    spans_view(spans@) == collision_sites(bytes@, entries@, name@, users@.take(k as int)),
                decreases users@.len() - k,
            {
                assert(users@.take(k + 1).drop_last() =~= users@.take(k as int));
                assert(users@.take(k + 1).last() == users@[k as int]);
                let ghost before = spans_view(spans@);
                match value_site_of(bytes, entries, users[k].peripheral.as_str(), name.as_str()) {
                    Some(sp) => {
                        spans.push(sp);
                        assert(spans_view(spans@) =~= before + seq![(sp.0 as int, sp.1 as int)]);
                    },
                    None => {
                        assert(spans_view(spans@) =~= before + Seq::<(int, int)>::empty());
                    },
                }
                k += 1;
            }
            assert(users@.take(users@.len() as int) =~= users@);
            if spans.len() == 0 {
                let r = vec![first_line(bytes)];
                assert(spans_view(r@) =~= seq![whole_first_line(bytes@)]);
                r
            } else {
                spans
            }
        },
        Conflict::AfMismatch { pin, peripheral, .. } => {
            let name = pin.to_string();
            let r = single_site(bytes, value_site_of(bytes, entries, peripheral.as_str(), name.as_str()));
            assert(spans_view(r@) =~= conflict_spans_spec(bytes@, entries@, *c));
            r
        },
        Conflict::InvalidPin { peripheral, value, .. } => {
            let r = single_site(bytes, value_site_of(bytes, entries, peripheral.as_str(), value.as_str()));
            assert(spans_view(r@) =~= conflict_spans_spec(bytes@, entries@, *c));
            r
        },
        Conflict::MissingPin { peripheral, .. } => {
            let r = single_site(bytes, header_of(bytes, entries, peripheral.as_str()));
            assert(spans_view(r@) =~= conflict_spans_spec(bytes@, entries@, *c));
            r
        },
        Conflict::ClockDomainDisabled { peripheral, .. } => {
            let r = single_site(bytes, header_of(bytes, entries, peripheral.as_str()));
            assert(spans_view(r@) =~= conflict_spans_spec(bytes@, entries@, *c));
            r
        },
        _ => {
            let r = vec![first_line(bytes)];
            assert(spans_view(r@) =~= conflict_spans_spec(bytes@, entries@, *c));
            r
        },
    }
}


/// One diagnostic: always an error, from source `nucleus`.
#[derive(Debug, Clone, PartialEq, Eq)]
pub struct Diagnostic {
    pub range: LspRange,
    pub severity: Severity,
    pub source: &'static str,
    pub message: String,
}

/// A document that did not parse: the span the parser blamed, if any, and
/// its message.
#[derive(Debug, Clone, PartialEq, Eq)]
pub struct ParseFailure {
    pub span: Option<(usize, usize)>,
    pub message: String,
}

/// A diagnostic as plain values: its start, end and message.
pub open spec fn diagnostic_view(d: Diagnostic) -> (Position, Position, Seq<char>) {
    (d.range.start, d.range.end, d.message@)
}

/// The diagnostics of one conflict: its message at each of its spans.
pub open spec fn conflict_diagnostics(text: Seq<u8>, entries: Seq<(String, Peripheral)>, c: Conflict) -> Seq<
    (Position, Position, Seq<char>),
> {
    conflict_spans_spec(text, entries, c).map_values(
        |sp: (int, int)| (position_spec(text, sp.0), position_spec(text, sp.1), conflict_message(c)),
    )
}

pub open spec fn all_diagnostics(text: Seq<u8>, entries: Seq<(String, Peripheral)>, cs: Seq<Conflict>) -> Seq<
    (Position, Position, Seq<char>),
>
    decreases cs.len(),
{
    if cs.len() == 0 {
        Seq::empty()
    } else {
        all_diagnostics(text, entries, cs.drop_last()) + conflict_diagnostics(text, entries, cs.last())
    }
}

/// Where a parse failure is reported: the parser's span, else the first byte.
pub open spec fn failure_span(text: Seq<u8>, span: Option<(usize, usize)>) -> (int, int) {
    match span {
        Some((a, b)) => (a as int, b as int),
        None => (0, if text.len() < 1 {
            text.len() as int
        } else {
            1
        }),
    }
}

/// The diagnostics of a document: for one that did not parse, its parse
/// error; else every conflict of its check, at each of its spans.
pub fn diagnostics(text: &str, checked: &Result<crate::compiler::CheckReport, ParseFailure>) -> (r: Vec<Diagnostic>)
    ensures
        forall|i: int| 0 <= i < r@.len() ==> (#[trigger] r@[i]).severity == Severity::Error && r@[i].source@ == "nucleus"@,
        r@.map_values(|d: Diagnostic| diagnostic_view(d)) == match checked {
            Ok(report) => all_diagnostics(text.spec_bytes(), report.config.peripherals@, report.conflicts@),
            Err(pf) => seq![
                (
                    position_spec(text.spec_bytes(), failure_span(text.spec_bytes(), pf.span).0),
                    position_spec(text.spec_bytes(), failure_span(text.spec_bytes(), pf.span).1),
                    pf.message@,
                ),
            ],
        },
{
    let bytes = text.as_bytes();
    let starts = line_index(bytes);
    let mut out: Vec<Diagnostic> = Vec::new();
    match checked {
        Err(pf) => {
            let (a, b) = match pf.span {
                Some(sp) => sp,
                None => (0, if bytes.len() < 1 {
                    bytes.len()
                } else {
                    1
                }),
            };
            out.push(
                Diagnostic {
                    range: LspRange { start: position_in(bytes, &starts, a), end: position_in(bytes, &starts, b) },
                    severity: Severity::Error,
                    source: "nucleus",
                    message: owned(pf.message.as_str()),
                },
            );
            assert(out@.map_values(|d: Diagnostic| diagnostic_view(d)) =~= seq![diagnostic_view(out@[0])]);
        },
        Ok(report) => {
            let ghost cs = report.conflicts@;
            let ghost es = report.config.peripherals@;
            let mut i: usize = 0;
            assert(cs.take(0) =~= Seq::<Conflict>::empty());
            while i < report.conflicts.len()
                invariant
                    0 <= i <= cs.len(),
                    cs == report.conflicts@,
                    es == report.config.peripherals@,
                    bytes@ == text.spec_bytes(),
                    starts@.len() == line_starts(bytes@).len(),
                    forall|k: int| 0 <= k < starts@.len() ==> #[trigger] starts@[k] as int == line_starts(bytes@)[k],
                    forall|k: int| 0 <= k < out@.len() ==> (#[trigger] out@[k]).severity == Severity::Error && out@[k].source@ == "nucleus"@,
                    out@.map_values(|d: Diagnostic| diagnostic_view(d)) == all_diagnostics(bytes@, es, cs.take(i as int)),
                decreases cs.len() - i,
            {
                let c = &report.conflicts[i];
                let message = c.to_string();
                let spans = conflict_spans(bytes, &report.config.peripherals, c);
                let ghost before = out@.map_values(|d: Diagnostic| diagnostic_view(d));
                let ghost want = conflict_diagnostics(bytes@, es, *c);
                let mut j: usize = 0;
                while j < spans.len()
                    invariant
                        0 <= j <= spans@.len(),
                        spans_view(spans@) == conflict_spans_spec(bytes@, es, *c),
                        want == conflict_diagnostics(bytes@, es, *c),
                        message@ == conflict_message(*c),
                        starts@.len() == line_starts(bytes@).len(),
                        forall|k: int| 0 <= k < starts@.len() ==> #[trigger] starts@[k] as int == line_starts(bytes@)[k],
                        forall|k: int| 0 <= k < out@.len() ==> (#[trigger] out@[k]).severity == Severity::Error && out@[k].source@ == "nucleus"@,
                        out@.map_values(|d: Diagnostic| diagnostic_view(d)) == before + want.take(j as int),
                    decreases spans@.len() - j,
                {
                    let (a, b) = spans[j];
                    let ghost prev = out@.map_values(|d: Diagnostic| diagnostic_view(d));
                    out.push(
                        Diagnostic {
                            range: LspRange { start: position_in(bytes, &starts, a), end: position_in(bytes, &starts, b) },
                            severity: Severity::Error,
                            source: "nucleus",
                            message: owned(message.as_str()),
                        },
                    );
                    assert(spans_view(spans@)[j as int] == (a as int, b as int));
                    assert(want[j as int] == (position_spec(bytes@, a as int), position_spec(bytes@, b as int), conflict_message(*c)));
                    assert(want.take(j + 1) =~= want.take(j as int).push(want[j as int]));
                    assert(out@.map_values(|d: Diagnostic| diagnostic_view(d)) =~= prev.push(diagnostic_view(out@[out@.len() - 1])));
                    j += 1;
                }
                assert(want.take(spans@.len() as int) =~= want);
                assert(cs.take(i + 1).drop_last() =~= cs.take(i as int));
                assert(cs.take(i + 1).last() == *c);
                i += 1;
            }
            assert(cs.take(cs.len() as int) =~= cs);
        },
    }
    out
}


/// Whether `b` is an ASCII letter or digit.
pub open spec fn is_word(b: u8) -> bool {
    (48 <= b && b <= 57) || (65 <= b && b <= 90) || (97 <= b && b <= 122)
}

/// Moving left from `s`, the start of the run of word bytes.
pub open spec fn word_start(t: Seq<u8>, s: int) -> int
    decreases s,
{
    if 0 < s <= t.len() && is_word(t[s - 1]) {
        word_start(t, s - 1)
    } else {
        s
    }
}

/// Moving right from `e`, the end of the run of word bytes.
pub open spec fn word_end(t: Seq<u8>, e: int) -> int
    decreases t.len() - e,
{
    if 0 <= e < t.len() && is_word(t[e]) {
        word_end(t, e + 1)
    } else {
        e
    }
}

/// The word (letters and digits) around byte `offset`, if any.
pub open spec fn token_span_spec(t: Seq<u8>, offset: int) -> Option<(int, int)> {
    let o = if offset < t.len() {
        offset
    } else {
        t.len() as int
    };
    let s = word_start(t, o);
    let e = word_end(t, o);
    if s == e {
        None
    } else {
        Some((s, e))
    }
}

fn is_word_byte(b: u8) -> (r: bool)
    ensures
        r == is_word(b),
{
    (48 <= b && b <= 57) || (65 <= b && b <= 90) || (97 <= b && b <= 122)
}

/// The word around `offset`.
fn token_at(bytes: &[u8], offset: usize) -> (r: Option<(usize, usize)>)
    ensures
        match token_span_spec(bytes@, offset as int) {
            Some((a, b)) => r == Some((a as usize, b as usize)) && 0 <= a < b <= bytes@.len(),
            None => r is None,
        },
{
    let n = bytes.len();
    let o = if offset < n {
        offset
    } else {
        n
    };
    let mut start = o;
    while start > 0 && is_word_byte(bytes[start - 1])
        invariant
            start <= o <= n,
            n == bytes@.len(),
            word_start(bytes@, o as int) == word_start(bytes@, start as int),
        decreases start,
    {
        start -= 1;
    }
    let mut end = o;
    while end < n && is_word_byte(bytes[end])
        invariant
            o <= end <= n,
            n == bytes@.len(),
            word_end(bytes@, o as int) == word_end(bytes@, end as int),
        decreases n - end,
    {
        end += 1;
    }
    if start == end {
        None
    } else {
        Some((start, end))
    }
}

/// The characters of ASCII bytes.
pub open spec fn ascii_chars(bs: Seq<u8>) -> Seq<char> {
    bs.map_values(|b: u8| b as char)
}

/// The pin named by the ASCII bytes `bytes[s..e]`, parsed as pin names are.
fn pin_from_bytes(bytes: &[u8], s: usize, e: usize) -> (r: Option<Pin>)
    requires
        s <= e <= bytes@.len(),
    ensures
        r == parse_pin_spec(ascii_chars(bytes@.subrange(s as int, e as int))),
{
    let ghost t = ascii_chars(bytes@.subrange(s as int, e as int));
    if e - s < 2 {
        return None;
    }
    let b0 = bytes[s];
    assert(t[0] == b0 as char);
    if !(b0 == 80 || b0 == 112) {
        return None;
    }
    let port = match Port::from_letter(bytes[s + 1] as char) {
        Some(p) => p,
        None => return None,
    };
    assert(t[1] == bytes@[s + 1] as char);
    let ghost rest = t.skip(2);
    let from: usize = if e - s > 2 && bytes[s + 2] == 43 {
        s + 3
    } else {
        s + 2
    };
    let ghost body = t.skip((from - s) as int);
    proof {
        if from == s + 3 {
            assert(t[2] == '+');
            assert(rest.skip(1) =~= body);
        } else {
            if e - s > 2 {
                assert(t[2] == bytes@[s + 2] as char);
                assert(bytes@[s + 2] != 43);
                assert(t[2] != '+');
            }
            assert(rest =~= body);
        }
    }
    if from >= e {
        assert(body.len() == 0);
        assert(parse_u8_spec(rest) is None);
        return None;
    }
    let mut acc: u32 = 0;
    let mut i: usize = from;
    while i < e
        invariant
            s + 2 <= from <= i <= e <= bytes@.len(),
            from < e,
            t == ascii_chars(bytes@.subrange(s as int, e as int)),
            body == t.skip((from - s) as int),
            parse_pin_spec(t) == match parse_u8_spec(t.skip(2)) {
                Some(v) => if v <= 15 {
                    Some(Pin { port, number: v as u8 })
                } else {
                    None
                },
                None => None,
            },
            parse_u8_spec(t.skip(2)) == if body.len() > 0 && all_digits(body) && digits_value(body) <= 255 {
                Some(digits_value(body))
            } else {
                None
            },
            all_digits(body.take(i - from)),
            acc as nat == if digits_value(body.take(i - from)) < 1000 {
                digits_value(body.take(i - from))
            } else {
                1000
            },
        decreases e - i,
    {
        let b = bytes[i];
        let c = b as char;
        assert(body[i - from] == c);
        if !(48 <= b && b <= 57) {
            return None;
        }
        let d = (b - 48) as u32;
        proof {
            let k = (i - from) as int;
            assert(body.take(k + 1).drop_last() =~= body.take(k));
            assert(body.take(k + 1).last() == c);
            assert forall|j: int| 0 <= j < k + 1 implies crate::db::is_digit(#[trigger] body.take(k + 1)[j]) by {
                if j < k {
                    assert(body.take(k + 1)[j] == body.take(k)[j]);
                }
            }
        }
        if acc >= 1000 || acc * 10 + d >= 1000 {
            acc = 1000;
        } else {
            acc = acc * 10 + d;
        }
        i += 1;
    }
    assert(body.take(e - from) =~= body);
    if acc <= 15 {
        Some(Pin { port, number: acc as u8 })
    } else {
        None
    }
}


/// Whether mapping `a` sorts strictly before `b` by `(af, peripheral, signal)`.
pub open spec fn af_lt(a: AfMapping, b: AfMapping) -> bool {
    a.af < b.af || (a.af == b.af && (seq_lt(a.peripheral@, b.peripheral@) || (a.peripheral@ == b.peripheral@ && seq_lt(
        a.signal@,
        b.signal@,
    ))))
}

/// Whether `s` is ordered by `(af, peripheral, signal)`.
pub open spec fn af_sorted(s: Seq<AfMapping>) -> bool {
    forall|i: int, j: int| 0 <= i < j < s.len() ==> !af_lt(#[trigger] s[j], #[trigger] s[i])
}

/// The mappings of `pin`, in database order.
pub open spec fn pin_rows(db: Seq<AfMapping>, pin: Pin) -> Seq<AfMapping> {
    db.filter(|m: AfMapping| m.pin == pin)
}

/// The order is transitive.
proof fn lemma_af_lt_transitive(a: AfMapping, b: AfMapping, c: AfMapping)
    requires
        af_lt(a, b),
        af_lt(b, c),
    ensures
        af_lt(a, c),
{
    if a.af == b.af && b.af == c.af {
        if seq_lt(a.peripheral@, b.peripheral@) && seq_lt(b.peripheral@, c.peripheral@) {
            crate::text::lemma_seq_lt_transitive(a.peripheral@, b.peripheral@, c.peripheral@);
        } else if a.peripheral@ == b.peripheral@ && b.peripheral@ == c.peripheral@ {
            crate::text::lemma_seq_lt_transitive(a.signal@, b.signal@, c.signal@);
        }
    }
}

/// No mapping sorts before itself.
proof fn lemma_af_lt_irreflexive(a: AfMapping)
    ensures
        !af_lt(a, a),
{
    crate::text::lemma_seq_lt_irreflexive(a.peripheral@);
    crate::text::lemma_seq_lt_irreflexive(a.signal@);
}

fn af_less(a: &AfMapping, b: &AfMapping) -> (r: bool)
    ensures
        r == af_lt(*a, *b),
{
    a.af < b.af || (a.af == b.af && (str_lt(a.peripheral, b.peripheral) || (str_eq(a.peripheral, b.peripheral) && str_lt(
        a.signal,
        b.signal,
    ))))
}

/// The mappings of `pin`, ordered by `(af, peripheral, signal)`, ties in
/// database order.
fn sorted_rows(db: &Database, pin: Pin) -> (r: Vec<AfMapping>)
    ensures
        af_sorted(r@),
        r@.to_multiset() == pin_rows(db@, pin).to_multiset(),
{
    let rows = db.alt_functions(pin);
    let mut out: Vec<AfMapping> = Vec::new();
    let mut i: usize = 0;
    assert(out@ =~= rows@.take(0));
    while i < rows.len()
        invariant
            0 <= i <= rows@.len(),
            rows@ == pin_rows(db@, pin),
            af_sorted(out@),
            out@.to_multiset() == rows@.take(i as int).to_multiset(),
        decreases rows@.len() - i,
    {
        let x = rows[i];
        let mut pos: usize = 0;
        while pos < out.len() && !af_less(&x, &out[pos])
            invariant
                0 <= pos <= out@.len(),
                forall|k: int| 0 <= k < pos ==> !af_lt(x, #[trigger] out@[k]),
            decreases out@.len() - pos,
        {
            pos += 1;
        }
        let ghost before = out@;
        out.insert(pos, x);
        proof {
            if pos < before.len() {
                assert(af_lt(x, before[pos as int]));
            }
            vstd::seq_lib::to_multiset_insert(before, pos as int, x);
            vstd::seq_lib::to_multiset_build(rows@.take(i as int), x);
            assert(rows@.take(i + 1) =~= rows@.take(i as int).push(x));
            assert forall|a: int, b: int| 0 <= a < b < out@.len() implies !af_lt(#[trigger] out@[b], #[trigger] out@[a]) by {
                if b < pos {
                    assert(out@[a] == before[a] && out@[b] == before[b]);
                } else if a < pos && b == pos {
                    assert(out@[a] == before[a]);
                } else if a < pos {
                    assert(out@[a] == before[a] && out@[b] == before[b - 1]);
                } else if a == pos {
                    assert(out@[b] == before[b - 1]);
                    if af_lt(before[b - 1], x) {
                        lemma_af_lt_transitive(before[b - 1], x, before[pos as int]);
                        if b - 1 == pos {
                            lemma_af_lt_irreflexive(before[pos as int]);
                        }
                    }
                } else {
                    assert(out@[a] == before[a - 1] && out@[b] == before[b - 1]);
                }
            }
        }
        i += 1;
    }
    assert(rows@.take(rows@.len() as int) =~= rows@);
    out
}


/// What a hover shows: Markdown text and the range of the word it explains.
#[derive(Debug, Clone, PartialEq, Eq)]
pub struct Hover {
    pub markdown: String,
    pub range: LspRange,
}

/// One alternate-function row of a pin hover.
pub open spec fn hover_row(m: AfMapping) -> Seq<char> {
    "- `AF"@ + dec_digits(m.af as nat) + "` — "@ + m.peripheral@ + "_"@ + m.signal@ + "\n"@
}

pub open spec fn hover_rows(s: Seq<AfMapping>) -> Seq<char>
    decreases s.len(),
{
    if s.len() == 0 {
        Seq::empty()
    } else {
        hover_rows(s.drop_last()) + hover_row(s.last())
    }
}

/// The heading of a pin hover.
pub open spec fn hover_heading(pin: Pin) -> Seq<char> {
    "**"@ + pin_name(pin) + "** — Port "@ + seq![port_letter(pin.port)] + ", pin "@ + dec_digits(pin.number as nat)
        + "\n\nAlternate functions:\n"@
}

/// The whole hover text for `pin` with its mappings in the order `s`.
pub open spec fn hover_markdown(pin: Pin, s: Seq<AfMapping>) -> Seq<char> {
    hover_heading(pin) + hover_rows(s)
}

/// The pin named by the word under `position`, with that word's span.
pub open spec fn pin_under(text: Seq<u8>, position: Position) -> Option<(Pin, (int, int))> {
    match token_span_spec(text, offset_spec(text, position)) {
        Some((a, b)) => match parse_pin_spec(ascii_chars(text.subrange(a, b))) {
            Some(p) => Some((p, (a, b))),
            None => None,
        },
        None => None,
    }
}

fn hover_row_text(m: &AfMapping) -> (r: String)
    ensures
        r@ == hover_row(*m),
{
    let mut r = String::from_str("- `AF");
    r.append(u64_to_string(m.af as u64).as_str());
    r.append("` — ");
    r.append(m.peripheral);
    r.append("_");
    r.append(m.signal);
    r.append("\n");
    r
}

/// Hover over a pin name: the pin, its port and number, and every alternate
/// function it carries on the STM32F446RE, ordered by
/// `(af, peripheral, signal)`. `None` off a pin name, or for a pin with no
/// alternate functions.
pub fn hover(text: &str, position: Position) -> (r: Option<Hover>)
    ensures
        match pin_under(text.spec_bytes(), position) {
            Some((pin, (a, b))) => if pin_rows(crate::db::data::f446re_table(), pin).len() == 0 {
                r is None
            } else {
                &&& r is Some
                &&& r->0.range == (LspRange {
                    start: position_spec(text.spec_bytes(), a),
                    end: position_spec(text.spec_bytes(), b),
                })
                &&& exists|s: Seq<AfMapping>|
                    #[trigger] af_sorted(s) && s.to_multiset() == pin_rows(crate::db::data::f446re_table(), pin).to_multiset()
                        && r->0.markdown@ == hover_markdown(pin, s)
            },
            None => r is None,
        },
{
    let bytes = text.as_bytes();
    let starts = line_index(bytes);
    let offset = offset_in(bytes, &starts, position);
    let n = bytes.len();
    let tk = token_at(bytes, offset);
    let ghost tok = token_span_spec(bytes@, offset as int);
    if tk.is_none() {
        return None;
    }
    let (a, b) = tk.unwrap();
    proof {
        let (ta, tb) = tok->0;
        assert(tk == Some((ta as usize, tb as usize)));
        assert(0 <= ta < tb <= bytes@.len());
        assert(a == ta as usize && b == tb as usize);
        assert(n as int == bytes@.len());
        assert(a as int == ta && b as int == tb);
        assert(tok == Some((a as int, b as int)));
    }
    assert(bytes@ == text.spec_bytes());
    let pin = match pin_from_bytes(bytes, a, b) {
        Some(p) => p,
        None => return None,
    };
    let db = Database::f446re();
    let rows = sorted_rows(&db, pin);
    proof {
        vstd::seq_lib::to_multiset_len(rows@);
        vstd::seq_lib::to_multiset_len(pin_rows(db@, pin));
    }
    if rows.len() == 0 {
        return None;
    }
    let mut md = String::from_str("**");
    md.append(pin.to_string().as_str());
    md.append("** — Port ");
    md.append(pin.port.letter_str());
    md.append(", pin ");
    md.append(u64_to_string(pin.number as u64).as_str());
    md.append("\n\nAlternate functions:\n");
    let ghost head = md@;
    assert(head == hover_heading(pin));
    let mut i: usize = 0;
    assert(rows@.take(0) =~= Seq::<AfMapping>::empty());
    while i < rows.len()
        invariant
            0 <= i <= rows@.len(),
            md@ == head + hover_rows(rows@.take(i as int)),
        decreases rows@.len() - i,
    {
        let row = hover_row_text(&rows[i]);
        md.append(row.as_str());
        assert(rows@.take(i + 1).drop_last() =~= rows@.take(i as int));
        i += 1;
    }
    assert(rows@.take(rows@.len() as int) =~= rows@);
    let range = LspRange { start: position_in(bytes, &starts, a), end: position_in(bytes, &starts, b) };
    let h = Hover { markdown: md, range };
    assert(af_sorted(rows@));
    Some(h)
}


/// Where the section header above byte `o` starts: just after the last
/// `\n[` before `o`, else at 0 when the text opens with `[`.
pub open spec fn section_above(text: Seq<u8>, o: int) -> Option<int> {
    match rfind_in(text, seq![10u8, 91u8], o) {
        Some(p) => Some(p + 1),
        None => if 1 <= o <= text.len() && text[0] == 91u8 {
            Some(0)
        } else {
            None
        },
    }
}

/// Where the line holding byte `o` starts.
pub open spec fn line_start_before(text: Seq<u8>, o: int) -> int {
    match rfind_in(text, seq![10u8], o) {
        Some(p) => p + 1,
        None => 0,
    }
}

/// Whether byte `o` sits inside a `[peripherals.…]` table, after an `=`
/// on its own line: a place where a pin name is the value being typed.
pub open spec fn in_value_position(text: Seq<u8>, o: int) -> bool {
    &&& match section_above(text, o) {
        Some(h) => matches_at(text, vstd::utf8::encode_utf8("[peripherals."@), h),
        None => false,
    }
    &&& exists|k: int| line_start_before(text, o) <= k < o && #[trigger] text[k] == 61u8
}

fn in_peripheral_value_position(bytes: &[u8], offset: usize) -> (r: bool)
    requires
        offset <= bytes@.len(),
    ensures
        r == in_value_position(bytes@, offset as int),
{
    let nl_bracket: Vec<u8> = vec![10u8, 91u8];
    assert(nl_bracket@ == seq![10u8, 91u8]);
    let h: usize = match rfind_bytes(bytes, nl_bracket.as_slice(), offset) {
        Some(p) => {
            proof {
                lemma_rfind_in_bounds(bytes@, seq![10u8, 91u8], offset as int);
            }
            p + 1
        },
        None => {
            if offset >= 1 && bytes[0] == 91 {
                0
            } else {
                return false;
            }
        },
    };
    let pre = String::from_str("[peripherals.");
    let pb = pre.as_str().as_bytes();
    let n = bytes.len();
    if h > n || pb.len() > n - h || !matches_here(bytes, pb, h) {
        return false;
    }
    let nl: Vec<u8> = vec![10u8];
    assert(nl@ == seq![10u8]);
    let ls: usize = match rfind_bytes(bytes, nl.as_slice(), offset) {
        Some(p) => {
            proof {
                lemma_rfind_in_bounds(bytes@, seq![10u8], offset as int);
            }
            p + 1
        },
        None => 0,
    };
    let mut k = ls;
    while k < offset
        invariant
            ls <= k <= offset <= bytes@.len(),
            ls as int == line_start_before(bytes@, offset as int),
            forall|j: int| ls <= j < k ==> bytes@[j] != 61u8,
            section_above(bytes@, offset as int) == Some(h as int),
            matches_at(bytes@, vstd::utf8::encode_utf8("[peripherals."@), h as int),
        decreases offset - k,
    {
        if bytes[k] == 61 {
            assert(bytes@[k as int] == 61u8);
            return true;
        }
        k += 1;
    }
    false
}

/// A match found by `rfind_in` ends by `end`.
proof fn lemma_rfind_in_bounds(hay: Seq<u8>, pat: Seq<u8>, end: int)
    ensures
        match rfind_in(hay, pat, end) {
            Some(i) => 0 <= i && i + pat.len() <= end <= hay.len(),
            None => true,
        },
    decreases end + 1,
{
    if end < pat.len() || end > hay.len() {
    } else if matches_at(hay, pat, end - pat.len()) {
    } else {
        lemma_rfind_in_bounds(hay, pat, end - 1);
    }
}


/// A pin completion: the pin's name, how many alternate functions it has,
/// and those functions listed. Every item completes a value.
#[derive(Debug, Clone, PartialEq, Eq)]
pub struct CompletionItem {
    pub label: String,
    pub detail: String,
    pub documentation: String,
}

/// One alternate function as a completion lists it.
pub open spec fn completion_entry(m: AfMapping) -> Seq<char> {
    "AF"@ + dec_digits(m.af as nat) + " "@ + m.peripheral@ + "_"@ + m.signal@
}

/// The entries of `s`, joined by `, `.
pub open spec fn completion_doc(s: Seq<AfMapping>) -> Seq<char>
    decreases s.len(),
{
    if s.len() == 0 {
        Seq::empty()
    } else if s.len() == 1 {
        completion_entry(s[0])
    } else {
        completion_doc(s.drop_last()) + ", "@ + completion_entry(s.last())
    }
}

/// Whether `item` is the completion for `pin` over the table `db`.
pub open spec fn completion_for(item: CompletionItem, db: Seq<AfMapping>, pin: Pin) -> bool {
    &&& item.label@ == pin_name(pin)
    &&& item.detail@ == dec_digits(pin_rows(db, pin).len()) + " alternate function(s)"@
    &&& exists|s: Seq<AfMapping>|
        #[trigger] af_sorted(s) && s.to_multiset() == pin_rows(db, pin).to_multiset() && item.documentation@
            == completion_doc(s)
}

fn completion_item(db: &Database, pin: Pin) -> (r: CompletionItem)
    ensures
        completion_for(r, db@, pin),
{
    let rows = sorted_rows(db, pin);
    proof {
        vstd::seq_lib::to_multiset_len(rows@);
        vstd::seq_lib::to_multiset_len(pin_rows(db@, pin));
    }
    let mut doc = String::new();
    let mut i: usize = 0;
    assert(rows@.take(0) =~= Seq::<AfMapping>::empty());
    assert(doc@ =~= completion_doc(rows@.take(0)));
    while i < rows.len()
        invariant
            0 <= i <= rows@.len(),
            doc@ == completion_doc(rows@.take(i as int)),
        decreases rows@.len() - i,
    {
        let m = &rows[i];
        if i > 0 {
            doc.append(", ");
        }
        doc.append("AF");
        doc.append(u64_to_string(m.af as u64).as_str());
        doc.append(" ");
        doc.append(m.peripheral);
        doc.append("_");
        doc.append(m.signal);
        proof {
            let t = rows@.take(i + 1);
            assert(t.drop_last() =~= rows@.take(i as int));
            assert(t.last() == *m);
            if i == 0 {
                assert(t =~= seq![*m]);
                assert(doc@ =~= completion_entry(*m));
            } else {
                assert(doc@ =~= completion_doc(t.drop_last()) + ", "@ + completion_entry(t.last()));
            }
        }
        i += 1;
    }
    assert(rows@.take(rows@.len() as int) =~= rows@);
    let mut detail = u64_to_string(rows.len() as u64);
    detail.append(" alternate function(s)");
    let r = CompletionItem { label: pin.to_string(), detail, documentation: doc };
    assert(af_sorted(rows@));
    r
}

/// Pin completions at `position`: inside a `[peripherals.…]` table, after
/// the `=` of a line, one item per pin of the STM32F446RE, in pin order;
/// anywhere else, none.
pub fn completion(text: &str, position: Position) -> (r: Vec<CompletionItem>)
    ensures
        !in_value_position(text.spec_bytes(), offset_spec(text.spec_bytes(), position)) ==> r@.len() == 0,
        in_value_position(text.spec_bytes(), offset_spec(text.spec_bytes(), position)) ==> exists|ps: Seq<Pin>|
            {
                &&& #[trigger] crate::db::strictly_sorted(ps)
                &&& forall|p: Pin|
                    ps.contains(p) <==> exists|i: int|
                        0 <= i < crate::db::data::f446re_table().len() && (#[trigger] crate::db::data::f446re_table()[i]).pin
                            == p
                &&& r@.len() == ps.len()
                &&& forall|i: int| 0 <= i < r@.len() ==> completion_for(#[trigger] r@[i], crate::db::data::f446re_table(), ps[i])
            },
{
    let bytes = text.as_bytes();
    let starts = line_index(bytes);
    let offset = offset_in(bytes, &starts, position);
    if !in_peripheral_value_position(bytes, offset) {
        return Vec::new();
    }
    let db = Database::f446re();
    let pins = db.pins();
    let mut out: Vec<CompletionItem> = Vec::new();
    let mut i: usize = 0;
    while i < pins.len()
        invariant
            0 <= i <= pins@.len(),
            out@.len() == i,
            db@ == crate::db::data::f446re_table(),
            forall|k: int| 0 <= k < i ==> completion_for(#[trigger] out@[k], db@, pins@[k]),
        decreases pins@.len() - i,
    {
        let item = completion_item(&db, pins[i]);
        out.push(item);
        i += 1;
    }
    out
}

} // verus!
