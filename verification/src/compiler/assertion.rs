//! The `[[test]]` assertion grammar.
//!
//! Four forms are accepted, word by word after splitting on Unicode
//! whitespace:
//!
//! - `pin <PIN> toggles at <N>Hz ±<N>%` (the tolerance may also be written
//!   `+-<N>%` or bare `<N>%`)
//! - `pin <PIN> is <high|low> within <N>ms`
//! - `<PERIPH> echoes "<text>" within <N>ms` (single or double quotes)
//! - `trace event "<pattern>" within <N>ms`
//!
//! This module parses the syntax. The numbers stay the text they were
//! written as: turning `1.5` into a rate or a duration is floating-point
//! work done by the caller, which checks each number text in the order the
//! grammar reads it ([`numbers_of`] on success, [`SyntaxError::numbers`] on
//! failure) before it reports anything else, and words a bad number with
//! [`number_error`].

use vstd::prelude::*;
use vstd::string::*;
use crate::compiler::solver::AssertionSubject;
use crate::text::{owned, str_debug, str_debug_spec, str_eq};

verus! {

// ---------------------------------------------------------------------------
// The model
// ---------------------------------------------------------------------------

/// Unicode `White_Space`, the whitespace that `str::split_whitespace` and
/// `str::trim` go by.
pub open spec fn is_ws(c: char) -> bool {
    let u = c as u32;
    ||| 0x9 <= u <= 0xd
    ||| u == 0x20
    ||| u == 0x85
    ||| u == 0xa0
    ||| u == 0x1680
    ||| 0x2000 <= u <= 0x200a
    ||| u == 0x2028
    ||| u == 0x2029
    ||| u == 0x202f
    ||| u == 0x205f
    ||| u == 0x3000
}

/// The words of `s` after the partial word `cur`: `cur` continues while
/// non-whitespace characters follow and ends at the next whitespace.
pub open spec fn words_after(s: Seq<char>, cur: Seq<char>) -> Seq<Seq<char>>
    decreases s.len(),
{
    if s.len() == 0 {
        if cur.len() == 0 { seq![] } else { seq![cur] }
    } else if is_ws(s[0]) {
        (if cur.len() == 0 { seq![] } else { seq![cur] }) + words_after(s.drop_first(), seq![])
    } else {
        words_after(s.drop_first(), cur.push(s[0]))
    }
}

/// The maximal runs of non-whitespace characters of `s`, in order: what
/// `str::split_whitespace` yields.
pub open spec fn words(s: Seq<char>) -> Seq<Seq<char>> {
    words_after(s, seq![])
}

/// The words joined with one space between neighbours.
pub open spec fn join_space(ws: Seq<Seq<char>>) -> Seq<char>
    decreases ws.len(),
{
    if ws.len() == 0 {
        seq![]
    } else if ws.len() == 1 {
        ws[0]
    } else {
        join_space(ws.drop_last()) + seq![' '] + ws.last()
    }
}

/// Whether `s` ends with `suf`.
pub open spec fn ends_with(s: Seq<char>, suf: Seq<char>) -> bool {
    suf.len() <= s.len() && s.skip(s.len() - suf.len()) == suf
}

/// The first index `j >= i` with `s[j] == d`.
pub open spec fn index_from(s: Seq<char>, d: char, i: int) -> Option<int>
    decreases s.len() - i,
{
    if i < 0 || i >= s.len() {
        None
    } else if s[i] == d {
        Some(i)
    } else {
        index_from(s, d, i + 1)
    }
}

/// The quoted text at the start of `s` and what follows its closing quote,
/// or why there is none. (`s` is a join of words, so it never starts with
/// whitespace.)
pub open spec fn quoted(s: Seq<char>) -> Result<(Seq<char>, Seq<char>), Seq<char>> {
    if s.len() == 0 {
        Err("expected a quoted string"@)
    } else if s[0] != '"' && s[0] != '\'' {
        Err("expected a quoted string starting with '\"' or '\'', got "@ + str_debug_spec(s))
    } else {
        match index_from(s, s[0], 1) {
            Some(j) => Ok((s.subrange(1, j), s.skip(j + 1))),
            None => Err("unterminated quoted string in "@ + str_debug_spec(s)),
        }
    }
}

/// Which number of an assertion a number text is.
#[derive(Debug, Clone, Copy, PartialEq, Eq, Structural)]
pub enum NumberField {
    Frequency,
    Tolerance,
    Duration,
}

/// The name of a number field in messages.
pub open spec fn field_name(f: NumberField) -> Seq<char> {
    match f {
        NumberField::Frequency => "frequency"@,
        NumberField::Tolerance => "tolerance"@,
        NumberField::Duration => "duration"@,
    }
}

/// A parsed assertion, as values.
pub enum SyntaxView {
    PinToggles { pin: Seq<char>, hz: Seq<char>, tolerance_pct: Seq<char> },
    PinState { pin: Seq<char>, level: bool, within_ms: Seq<char> },
    UartEcho { instance: Seq<char>, payload: Seq<u8>, within_ms: Seq<char> },
    ItmEvent { pattern: Seq<char>, within_ms: Seq<char> },
}

/// The number texts read so far, with their fields.
pub type NumbersView = Seq<(NumberField, Seq<char>)>;

/// A parse: the assertion, or the message with the number texts read
/// before the failure.
pub type ParseView = Result<SyntaxView, (Seq<char>, NumbersView)>;

/// A failure with no number read before it.
pub open spec fn fail(msg: Seq<char>) -> ParseView {
    Err((msg, seq![]))
}

/// `within <N>ms` at the start of `r`: the number text, or why not.
pub open spec fn within_spec(r: Seq<Seq<char>>) -> Result<Seq<char>, Seq<char>> {
    if r.len() == 0 {
        Err("expected 'within' clause"@)
    } else if r[0] != "within"@ {
        Err("expected 'within', got "@ + str_debug_spec(r[0]))
    } else if r.len() < 2 {
        Err("expected a duration like '10ms' after 'within'"@)
    } else if !ends_with(r[1], "ms"@) {
        Err("expected duration to end in 'ms', got "@ + str_debug_spec(r[1]))
    } else {
        Ok(r[1].take(r[1].len() - 2))
    }
}

/// The tolerance token without its `±` or `+-` prefix.
pub open spec fn tolerance_body(t: Seq<char>) -> Seq<char> {
    if t.len() >= 1 && t[0] == '±' {
        t.skip(1)
    } else if t.len() >= 2 && t[0] == '+' && t[1] == '-' {
        t.skip(2)
    } else {
        t
    }
}

/// `at <N>Hz ±<N>%` after `pin <PIN> toggles`.
pub open spec fn toggles_spec(pin: Seq<char>, r: Seq<Seq<char>>) -> ParseView {
    if r.len() == 0 {
        fail("expected 'at' after 'toggles'"@)
    } else if r[0] != "at"@ {
        fail("expected 'at' after 'toggles', got "@ + str_debug_spec(r[0]))
    } else if r.len() < 2 {
        fail("expected a frequency like '1Hz' after 'at'"@)
    } else if !ends_with(r[1], "Hz"@) {
        fail("expected frequency to end in 'Hz', got "@ + str_debug_spec(r[1]))
    } else {
        let hz = r[1].take(r[1].len() - 2);
        let n1 = seq![(NumberField::Frequency, hz)];
        if r.len() < 3 {
            Err(("expected a tolerance like '±5%' after the frequency"@, n1))
        } else if !ends_with(tolerance_body(r[2]), "%"@) {
            Err(("expected tolerance to end in '%', got "@ + str_debug_spec(r[2]), n1))
        } else {
            let body = tolerance_body(r[2]);
            let pct = body.take(body.len() - 1);
            if r.len() > 3 {
                Err(("unexpected trailing tokens after tolerance"@, n1.push((NumberField::Tolerance, pct))))
            } else {
                Ok(SyntaxView::PinToggles { pin, hz, tolerance_pct: pct })
            }
        }
    }
}

/// `<high|low> within <N>ms` after `pin <PIN> is`.
pub open spec fn state_spec(pin: Seq<char>, r: Seq<Seq<char>>) -> ParseView {
    if r.len() == 0 {
        fail("expected 'high' or 'low' after 'is'"@)
    } else if r[0] != "high"@ && r[0] != "low"@ {
        fail("expected 'high' or 'low', got "@ + str_debug_spec(r[0]))
    } else {
        match within_spec(r.skip(1)) {
            Err(m) => fail(m),
            Ok(ms) => if r.len() > 3 {
                Err(("unexpected trailing tokens after duration"@, seq![(NumberField::Duration, ms)]))
            } else {
                Ok(SyntaxView::PinState { pin, level: r[0] == "high"@, within_ms: ms })
            },
        }
    }
}

/// `"<text>" within <N>ms`, read from the words after the verb joined
/// back with single spaces: the text and the duration's number text.
pub open spec fn quoted_tail(r: Seq<Seq<char>>) -> Result<(Seq<char>, Seq<char>), (Seq<char>, NumbersView)> {
    match quoted(join_space(r)) {
        Err(m) => Err((m, seq![])),
        Ok((text, rest)) => {
            let rw = words(rest);
            match within_spec(rw) {
                Err(m) => Err((m, seq![])),
                Ok(ms) => if rw.len() > 2 {
                    Err(("unexpected trailing tokens after duration"@, seq![(NumberField::Duration, ms)]))
                } else {
                    Ok((text, ms))
                },
            }
        },
    }
}

/// `event "<pattern>" within <N>ms` after `trace`.
pub open spec fn trace_spec(r: Seq<Seq<char>>) -> ParseView {
    if r.len() == 0 {
        fail("expected 'event' after 'trace'"@)
    } else if r[0] != "event"@ {
        fail("expected 'event' after 'trace', got "@ + str_debug_spec(r[0]))
    } else {
        match quoted_tail(r.skip(1)) {
            Err(e) => Err(e),
            Ok((pattern, ms)) => Ok(SyntaxView::ItmEvent { pattern, within_ms: ms }),
        }
    }
}

/// `echoes "<text>" within <N>ms` after the peripheral `head`.
pub open spec fn echo_spec(head: Seq<char>, r: Seq<Seq<char>>) -> ParseView {
    if r.len() == 0 {
        fail("unknown leading subject "@ + str_debug_spec(head)
            + " (expected 'pin', 'trace', or a peripheral name followed by 'echoes')"@)
    } else if r[0] != "echoes"@ {
        fail("unknown verb "@ + str_debug_spec(r[0]) + " (expected 'echoes' after peripheral name "@
            + str_debug_spec(head) + ")"@)
    } else {
        match quoted_tail(r.skip(1)) {
            Err(e) => Err(e),
            Ok((text, ms)) => Ok(SyntaxView::UartEcho {
                instance: head,
                payload: vstd::utf8::encode_utf8(text),
                within_ms: ms,
            }),
        }
    }
}

/// `<PIN> toggles ...` or `<PIN> is ...` after `pin`.
pub open spec fn pin_spec(r: Seq<Seq<char>>) -> ParseView {
    if r.len() == 0 {
        fail("expected a pin name after 'pin'"@)
    } else if r.len() == 1 {
        fail("expected 'toggles' or 'is' after pin name"@)
    } else if r[1] == "toggles"@ {
        toggles_spec(r[0], r.skip(2))
    } else if r[1] == "is"@ {
        state_spec(r[0], r.skip(2))
    } else {
        fail("unknown verb "@ + str_debug_spec(r[1]) + " after pin name (expected 'toggles' or 'is')"@)
    }
}

/// The parse of an assertion given as its words.
pub open spec fn parse_words(w: Seq<Seq<char>>) -> ParseView {
    if w.len() == 0 {
        fail("empty assertion string"@)
    } else if w[0] == "pin"@ {
        pin_spec(w.skip(1))
    } else if w[0] == "trace"@ {
        trace_spec(w.skip(1))
    } else {
        echo_spec(w[0], w.skip(1))
    }
}

/// The parse of an assertion string.
pub open spec fn assertion_syntax_spec(s: Seq<char>) -> ParseView {
    parse_words(words(s))
}


// ---------------------------------------------------------------------------
// Values
// ---------------------------------------------------------------------------

/// A parsed assertion; every number is the text it was written as.
#[derive(Debug, Clone, PartialEq, Eq)]
pub enum AssertionSyntax {
    /// `pin <PIN> toggles at <hz>Hz ±<tolerance_pct>%`
    PinToggles { pin: String, hz: String, tolerance_pct: String },
    /// `pin <PIN> is <high|low> within <within_ms>ms`
    PinState { pin: String, level: bool, within_ms: String },
    /// `<instance> echoes "<text>" within <within_ms>ms`, the text as UTF-8
    UartEcho { instance: String, payload: Vec<u8>, within_ms: String },
    /// `trace event "<pattern>" within <within_ms>ms`
    ItmEvent { pattern: String, within_ms: String },
}

impl View for AssertionSyntax {
    type V = SyntaxView;

    open spec fn view(&self) -> SyntaxView {
        match self {
            AssertionSyntax::PinToggles { pin, hz, tolerance_pct } => SyntaxView::PinToggles {
                pin: pin@,
                hz: hz@,
                tolerance_pct: tolerance_pct@,
            },
            AssertionSyntax::PinState { pin, level, within_ms } => SyntaxView::PinState {
                pin: pin@,
                level: *level,
                within_ms: within_ms@,
            },
            AssertionSyntax::UartEcho { instance, payload, within_ms } => SyntaxView::UartEcho {
                instance: instance@,
                payload: payload@,
                within_ms: within_ms@,
            },
            AssertionSyntax::ItmEvent { pattern, within_ms } => SyntaxView::ItmEvent {
                pattern: pattern@,
                within_ms: within_ms@,
            },
        }
    }
}

/// A number text with the field it was read for.
#[derive(Debug, Clone, PartialEq, Eq)]
pub struct NumberText {
    pub field: NumberField,
    pub text: String,
}

/// Why an assertion does not parse, with the number texts the grammar read
/// before it got there (the caller reports a bad one of those first).
#[derive(Debug, Clone, PartialEq, Eq)]
pub struct SyntaxError {
    pub message: String,
    pub numbers: Vec<NumberText>,
}

/// The values of number texts.
pub open spec fn numbers_view(v: Seq<NumberText>) -> NumbersView {
    v.map_values(|n: NumberText| (n.field, n.text@))
}

/// The value of a parse.
pub open spec fn parse_view(r: Result<AssertionSyntax, SyntaxError>) -> ParseView {
    match r {
        Ok(a) => Ok(a@),
        Err(e) => Err((e.message@, numbers_view(e.numbers@))),
    }
}

/// The character views of a list of strings.
pub open spec fn word_views(v: Seq<String>) -> Seq<Seq<char>> {
    v.map_values(|x: String| x@)
}

// ---------------------------------------------------------------------------
// Words
// ---------------------------------------------------------------------------

/// Whether `c` is Unicode whitespace.
pub fn is_ws_char(c: char) -> (r: bool)
    ensures
        r == is_ws(c),
{
    let u = c as u32;
    (0x9 <= u && u <= 0xd) || u == 0x20 || u == 0x85 || u == 0xa0 || u == 0x1680
        || (0x2000 <= u && u <= 0x200a) || u == 0x2028 || u == 0x2029 || u == 0x202f
        || u == 0x205f || u == 0x3000
}

/// The whitespace-separated words of `s`.
pub fn split_words(s: &str) -> (r: Vec<String>)
    ensures
        word_views(r@) == words(s@),
{
    let n = s.unicode_len();
    let mut out: Vec<String> = Vec::new();
    let mut start: usize = 0;
    let mut i: usize = 0;
    assert(s@.skip(0) =~= s@);
    assert(s@.subrange(0, 0) =~= Seq::<char>::empty());
    while i < n
        invariant
            n == s@.len(),
            start <= i <= n,
            words(s@) == word_views(out@) + words_after(s@.skip(i as int), s@.subrange(start as int, i as int)),
        decreases n - i,
    {
        let c = s.get_char(i);
        let ghost rest = s@.skip(i as int);
        let ghost cur = s@.subrange(start as int, i as int);
        assert(rest.drop_first() =~= s@.skip(i + 1));
        assert(rest[0] == c);
        if is_ws_char(c) {
            if start < i {
                let wd = owned(s.substring_char(start, i));
                let ghost before = out@;
                out.push(wd);
                assert(word_views(out@) =~= word_views(before) + seq![cur]);
            } else {
                assert(cur.len() == 0);
            }
            assert(s@.subrange(i + 1, i + 1) =~= Seq::<char>::empty());
            start = i + 1;
        } else {
            assert(cur.push(c) =~= s@.subrange(start as int, i + 1));
        }
        i += 1;
    }
    let ghost cur = s@.subrange(start as int, n as int);
    assert(s@.skip(n as int) =~= Seq::<char>::empty());
    if start < n {
        let wd = owned(s.substring_char(start, n));
        let ghost before = out@;
        out.push(wd);
        assert(word_views(out@) =~= word_views(before) + seq![cur]);
    } else {
        assert(word_views(out@) + Seq::<Seq<char>>::empty() =~= word_views(out@));
    }
    out
}

/// The words from the `k`-th on, joined with single spaces.
fn join_from(w: &Vec<String>, k: usize) -> (r: String)
    requires
        k <= w.len(),
    ensures
        r@ == join_space(word_views(w@).skip(k as int)),
{
    let ghost wv = word_views(w@);
    let mut acc = String::new();
    let mut j: usize = k;
    assert(wv.subrange(k as int, k as int) =~= Seq::<Seq<char>>::empty());
    while j < w.len()
        invariant
            k <= j <= w.len(),
            wv == word_views(w@),
            acc@ == join_space(wv.subrange(k as int, j as int)),
        decreases w.len() - j,
    {
        let ghost sub = wv.subrange(k as int, j as int + 1);
        assert(sub.drop_last() =~= wv.subrange(k as int, j as int));
        if j > k {
            acc = acc.concat(" ");
            proof { reveal_strlit(" "); }
            assert(" "@ =~= seq![' ']);
        } else {
            assert(sub.len() == 1);
        }
        acc = acc.concat(w[j].as_str());
        j += 1;
    }
    assert(wv.subrange(k as int, w.len() as int) =~= wv.skip(k as int));
    acc
}

/// Whether `s` ends with `suf`.
fn str_ends_with(s: &str, suf: &str) -> (r: bool)
    ensures
        r == ends_with(s@, suf@),
{
    let n = s.unicode_len();
    let m = suf.unicode_len();
    if m > n {
        return false;
    }
    let tail = s.substring_char(n - m, n);
    assert(s@.skip(n - m) =~= s@.subrange(n - m, n as int));
    str_eq(tail, suf)
}

/// `s` without its last `k` characters.
fn drop_tail(s: &str, k: usize) -> (r: String)
    requires
        k <= s@.len(),
    ensures
        r@ == s@.take(s@.len() - k),
{
    let n = s.unicode_len();
    let r = owned(s.substring_char(0, n - k));
    assert(s@.subrange(0, n - k) =~= s@.take(s@.len() - k));
    r
}

/// `lit` followed by the `{:?}` rendering of `x`.
fn lit_debug(lit: &str, x: &str) -> (r: String)
    ensures
        r@ == lit@ + str_debug_spec(x@),
{
    String::from_str(lit).concat(str_debug(x).as_str())
}

/// A syntax error with no number read before it.
fn fail_with(message: String) -> (r: SyntaxError)
    ensures
        r.message@ == message@,
        numbers_view(r.numbers@) == Seq::<(NumberField, Seq<char>)>::empty(),
{
    let r = SyntaxError { message, numbers: Vec::new() };
    assert(numbers_view(r.numbers@) =~= Seq::<(NumberField, Seq<char>)>::empty());
    r
}


// ---------------------------------------------------------------------------
// The grammar
// ---------------------------------------------------------------------------

/// The value of a clause parse.
pub open spec fn text_view(r: Result<String, String>) -> Result<Seq<char>, Seq<char>> {
    match r {
        Ok(x) => Ok(x@),
        Err(m) => Err(m@),
    }
}

/// `within <N>ms` from the `k`-th word on: the number text.
fn within_clause(w: &Vec<String>, k: usize) -> (r: Result<String, String>)
    requires
        k <= w.len(),
    ensures
        text_view(r) == within_spec(word_views(w@).skip(k as int)),
{
    let ghost r = word_views(w@).skip(k as int);
    if k >= w.len() {
        return Err(String::from_str("expected 'within' clause"));
    }
    if !str_eq(w[k].as_str(), "within") {
        return Err(lit_debug("expected 'within', got ", w[k].as_str()));
    }
    if k + 1 >= w.len() {
        return Err(String::from_str("expected a duration like '10ms' after 'within'"));
    }
    let tok = w[k + 1].as_str();
    assert(r[1] == tok@);
    if !str_ends_with(tok, "ms") {
        return Err(lit_debug("expected duration to end in 'ms', got ", tok));
    }
    proof { reveal_strlit("ms"); }
    Ok(drop_tail(tok, 2))
}

/// The value of a quoted-string parse.
pub open spec fn quoted_view(r: Result<(String, String), String>) -> Result<(Seq<char>, Seq<char>), Seq<char>> {
    match r {
        Ok((a, b)) => Ok((a@, b@)),
        Err(m) => Err(m@),
    }
}

/// The quoted text at the start of `s` and what follows its closing quote.
fn take_quoted(s: &str) -> (r: Result<(String, String), String>)
    ensures
        quoted_view(r) == quoted(s@),
{
    let n = s.unicode_len();
    if n == 0 {
        return Err(String::from_str("expected a quoted string"));
    }
    let d = s.get_char(0);
    if d != '"' && d != '\'' {
        return Err(lit_debug("expected a quoted string starting with '\"' or '\'', got ", s));
    }
    let mut j: usize = 1;
    while j < n
        invariant
            1 <= j <= n,
            n == s@.len(),
            d == s@[0],
            d == '"' || d == '\'',
            index_from(s@, d, 1) == index_from(s@, d, j as int),
        decreases n - j,
    {
        if s.get_char(j) == d {
            assert(index_from(s@, d, j as int) == Some(j as int));
            let text = owned(s.substring_char(1, j));
            let rest = owned(s.substring_char(j + 1, n));
            assert(s@.subrange(j + 1, n as int) =~= s@.skip(j + 1));
            return Ok((text, rest));
        }
        j += 1;
    }
    Err(lit_debug("unterminated quoted string in ", s))
}

/// The value of a quoted-tail parse.
pub open spec fn tail_view(r: Result<(String, String), SyntaxError>) -> Result<(Seq<char>, Seq<char>), (Seq<char>, NumbersView)> {
    match r {
        Ok((a, b)) => Ok((a@, b@)),
        Err(e) => Err((e.message@, numbers_view(e.numbers@))),
    }
}

/// `"<text>" within <N>ms` from the `k`-th word on: the text and the
/// duration's number text.
fn quoted_tail_of(w: &Vec<String>, k: usize) -> (r: Result<(String, String), SyntaxError>)
    requires
        k <= w.len(),
    ensures
        tail_view(r) == quoted_tail(word_views(w@).skip(k as int)),
{
    let joined = join_from(w, k);
    let (text, rest) = match take_quoted(joined.as_str()) {
        Err(m) => {
            let e = fail_with(m);
            assert(numbers_view(e.numbers@) =~= Seq::empty());
            return Err(e);
        },
        Ok(x) => x,
    };
    let rw = split_words(rest.as_str());
    assert(word_views(rw@).skip(0) =~= word_views(rw@));
    let ms = match within_clause(&rw, 0) {
        Err(m) => {
            let e = fail_with(m);
            assert(numbers_view(e.numbers@) =~= Seq::empty());
            return Err(e);
        },
        Ok(x) => x,
    };
    if rw.len() > 2 {
        let numbers = vec![NumberText { field: NumberField::Duration, text: ms }];
        let e = SyntaxError { message: String::from_str("unexpected trailing tokens after duration"), numbers };
        assert(numbers_view(e.numbers@) =~= seq![(NumberField::Duration, ms@)]);
        return Err(e);
    }
    Ok((text, ms))
}


/// `at <N>Hz ±<N>%` from the `k`-th word on, for the pin `pin`.
fn toggles_of(pin: String, w: &Vec<String>, k: usize) -> (r: Result<AssertionSyntax, SyntaxError>)
    requires
        k <= w.len(),
    ensures
        parse_view(r) == toggles_spec(pin@, word_views(w@).skip(k as int)),
{
    let ghost r = word_views(w@).skip(k as int);
    if k >= w.len() {
        return Err(fail_with(String::from_str("expected 'at' after 'toggles'")));
    }
    if !str_eq(w[k].as_str(), "at") {
        return Err(fail_with(lit_debug("expected 'at' after 'toggles', got ", w[k].as_str())));
    }
    if k + 1 >= w.len() {
        return Err(fail_with(String::from_str("expected a frequency like '1Hz' after 'at'")));
    }
    let hz_tok = w[k + 1].as_str();
    assert(r[1] == hz_tok@);
    if !str_ends_with(hz_tok, "Hz") {
        return Err(fail_with(lit_debug("expected frequency to end in 'Hz', got ", hz_tok)));
    }
    proof { reveal_strlit("Hz"); }
    let hz = drop_tail(hz_tok, 2);
    let ghost n1 = seq![(NumberField::Frequency, hz@)];
    if k + 2 >= w.len() {
        let numbers = vec![NumberText { field: NumberField::Frequency, text: hz }];
        assert(numbers_view(numbers@) =~= n1);
        return Err(SyntaxError {
            message: String::from_str("expected a tolerance like '±5%' after the frequency"),
            numbers,
        });
    }
    let pct_tok = w[k + 2].as_str();
    assert(r[2] == pct_tok@);
    let tn = pct_tok.unicode_len();
    let body: &str = if tn >= 1 && pct_tok.get_char(0) == '±' {
        assert(pct_tok@.subrange(1, tn as int) =~= pct_tok@.skip(1));
        pct_tok.substring_char(1, tn)
    } else if tn >= 2 && pct_tok.get_char(0) == '+' && pct_tok.get_char(1) == '-' {
        assert(pct_tok@.subrange(2, tn as int) =~= pct_tok@.skip(2));
        pct_tok.substring_char(2, tn)
    } else {
        pct_tok
    };
    assert(body@ == tolerance_body(pct_tok@));
    if !str_ends_with(body, "%") {
        let numbers = vec![NumberText { field: NumberField::Frequency, text: hz }];
        assert(numbers_view(numbers@) =~= n1);
        return Err(SyntaxError {
            message: lit_debug("expected tolerance to end in '%', got ", pct_tok),
            numbers,
        });
    }
    proof { reveal_strlit("%"); }
    let pct = drop_tail(body, 1);
    if k + 3 < w.len() {
        let numbers = vec![
            NumberText { field: NumberField::Frequency, text: hz },
            NumberText { field: NumberField::Tolerance, text: pct },
        ];
        assert(numbers_view(numbers@) =~= n1.push((NumberField::Tolerance, pct@)));
        return Err(SyntaxError {
            message: String::from_str("unexpected trailing tokens after tolerance"),
            numbers,
        });
    }
    Ok(AssertionSyntax::PinToggles { pin, hz, tolerance_pct: pct })
}

/// `<high|low> within <N>ms` from the `k`-th word on, for the pin `pin`.
fn state_of(pin: String, w: &Vec<String>, k: usize) -> (r: Result<AssertionSyntax, SyntaxError>)
    requires
        k <= w.len(),
    ensures
        parse_view(r) == state_spec(pin@, word_views(w@).skip(k as int)),
{
    let ghost r = word_views(w@).skip(k as int);
    if k >= w.len() {
        return Err(fail_with(String::from_str("expected 'high' or 'low' after 'is'")));
    }
    let high = str_eq(w[k].as_str(), "high");
    let low = str_eq(w[k].as_str(), "low");
    if !high && !low {
        return Err(fail_with(lit_debug("expected 'high' or 'low', got ", w[k].as_str())));
    }
    assert(word_views(w@).skip(k + 1) =~= r.skip(1));
    let ms = match within_clause(w, k + 1) {
        Err(m) => return Err(fail_with(m)),
        Ok(x) => x,
    };
    if k + 3 < w.len() {
        let numbers = vec![NumberText { field: NumberField::Duration, text: ms }];
        assert(numbers_view(numbers@) =~= seq![(NumberField::Duration, ms@)]);
        return Err(SyntaxError {
            message: String::from_str("unexpected trailing tokens after duration"),
            numbers,
        });
    }
    Ok(AssertionSyntax::PinState { pin, level: high, within_ms: ms })
}

/// `event "<pattern>" within <N>ms` from the `k`-th word on.
fn trace_of(w: &Vec<String>, k: usize) -> (r: Result<AssertionSyntax, SyntaxError>)
    requires
        k <= w.len(),
    ensures
        parse_view(r) == trace_spec(word_views(w@).skip(k as int)),
{
    let ghost r = word_views(w@).skip(k as int);
    if k >= w.len() {
        return Err(fail_with(String::from_str("expected 'event' after 'trace'")));
    }
    if !str_eq(w[k].as_str(), "event") {
        return Err(fail_with(lit_debug("expected 'event' after 'trace', got ", w[k].as_str())));
    }
    assert(word_views(w@).skip(k + 1) =~= r.skip(1));
    match quoted_tail_of(w, k + 1) {
        Err(e) => Err(e),
        Ok((pattern, ms)) => Ok(AssertionSyntax::ItmEvent { pattern, within_ms: ms }),
    }
}

/// `echoes "<text>" within <N>ms` from the `k`-th word on, for the
/// peripheral `head`.
fn echo_of(head: &str, w: &Vec<String>, k: usize) -> (r: Result<AssertionSyntax, SyntaxError>)
    requires
        k <= w.len(),
    ensures
        parse_view(r) == echo_spec(head@, word_views(w@).skip(k as int)),
{
    let ghost r = word_views(w@).skip(k as int);
    if k >= w.len() {
        let m = lit_debug("unknown leading subject ", head)
            .concat(" (expected 'pin', 'trace', or a peripheral name followed by 'echoes')");
        return Err(fail_with(m));
    }
    if !str_eq(w[k].as_str(), "echoes") {
        let m = lit_debug("unknown verb ", w[k].as_str())
            .concat(" (expected 'echoes' after peripheral name ")
            .concat(str_debug(head).as_str())
            .concat(")");
        return Err(fail_with(m));
    }
    assert(word_views(w@).skip(k + 1) =~= r.skip(1));
    match quoted_tail_of(w, k + 1) {
        Err(e) => Err(e),
        Ok((text, ms)) => {
            let payload = text.as_str().as_bytes_vec();
            Ok(AssertionSyntax::UartEcho { instance: owned(head), payload, within_ms: ms })
        },
    }
}

/// `<PIN> toggles ...` or `<PIN> is ...` from the `k`-th word on.
fn pin_of(w: &Vec<String>, k: usize) -> (r: Result<AssertionSyntax, SyntaxError>)
    requires
        k <= w.len(),
    ensures
        parse_view(r) == pin_spec(word_views(w@).skip(k as int)),
{
    let ghost r = word_views(w@).skip(k as int);
    if k >= w.len() {
        return Err(fail_with(String::from_str("expected a pin name after 'pin'")));
    }
    if k + 1 >= w.len() {
        return Err(fail_with(String::from_str("expected 'toggles' or 'is' after pin name")));
    }
    let pin = owned(w[k].as_str());
    assert(word_views(w@).skip(k + 2) =~= r.skip(2));
    if str_eq(w[k + 1].as_str(), "toggles") {
        toggles_of(pin, w, k + 2)
    } else if str_eq(w[k + 1].as_str(), "is") {
        state_of(pin, w, k + 2)
    } else {
        let m = lit_debug("unknown verb ", w[k + 1].as_str())
            .concat(" after pin name (expected 'toggles' or 'is')");
        Err(fail_with(m))
    }
}

/// Parse an assertion string.
///
/// On success the numbers are still text; on failure the error carries the
/// number texts read before it.
pub fn parse_assertion(s: &str) -> (r: Result<AssertionSyntax, SyntaxError>)
    ensures
        parse_view(r) == assertion_syntax_spec(s@),
{
    let w = split_words(s);
    let ghost wv = word_views(w@);
    if w.len() == 0 {
        return Err(fail_with(String::from_str("empty assertion string")));
    }
    if str_eq(w[0].as_str(), "pin") {
        pin_of(&w, 1)
    } else if str_eq(w[0].as_str(), "trace") {
        trace_of(&w, 1)
    } else {
        echo_of(w[0].as_str(), &w, 1)
    }
}


// ---------------------------------------------------------------------------
// Numbers and subjects
// ---------------------------------------------------------------------------

/// The number texts of a parsed assertion, in the order the grammar reads
/// them.
pub open spec fn syntax_numbers(a: SyntaxView) -> NumbersView {
    match a {
        SyntaxView::PinToggles { hz, tolerance_pct, .. } => seq![
            (NumberField::Frequency, hz),
            (NumberField::Tolerance, tolerance_pct),
        ],
        SyntaxView::PinState { within_ms, .. } => seq![(NumberField::Duration, within_ms)],
        SyntaxView::UartEcho { within_ms, .. } => seq![(NumberField::Duration, within_ms)],
        SyntaxView::ItmEvent { within_ms, .. } => seq![(NumberField::Duration, within_ms)],
    }
}

/// The number texts a parse leaves for the caller to check: all of them on
/// success, those read before the failure otherwise.
pub open spec fn pending_numbers(r: ParseView) -> NumbersView {
    match r {
        Ok(a) => syntax_numbers(a),
        Err((_, ns)) => ns,
    }
}

/// A copy of a list of number texts.
fn copy_numbers(v: &Vec<NumberText>) -> (out: Vec<NumberText>)
    ensures
        numbers_view(out@) == numbers_view(v@),
{
    let mut out: Vec<NumberText> = Vec::new();
    let mut i: usize = 0;
    while i < v.len()
        invariant
            0 <= i <= v.len(),
            numbers_view(out@) == numbers_view(v@.take(i as int)),
        decreases v.len() - i,
    {
        let ghost before = out@;
        out.push(NumberText { field: v[i].field, text: v[i].text.clone() });
        assert(v@.take(i + 1) =~= v@.take(i as int).push(v@[i as int]));
        assert(numbers_view(out@) =~= numbers_view(before).push((v@[i as int].field, v@[i as int].text@)));
        assert(numbers_view(v@.take(i + 1)) =~= numbers_view(v@.take(i as int)).push((v@[i as int].field, v@[i as int].text@)));
        i += 1;
    }
    assert(v@.take(v.len() as int) =~= v@);
    out
}

/// The number texts of a parse, in the order they are to be checked.
pub fn pending(r: &Result<AssertionSyntax, SyntaxError>) -> (out: Vec<NumberText>)
    ensures
        numbers_view(out@) == pending_numbers(parse_view(*r)),
{
    let out = match r {
        Ok(AssertionSyntax::PinToggles { hz, tolerance_pct, .. }) => vec![
            NumberText { field: NumberField::Frequency, text: hz.clone() },
            NumberText { field: NumberField::Tolerance, text: tolerance_pct.clone() },
        ],
        Ok(AssertionSyntax::PinState { within_ms, .. }) => vec![
            NumberText { field: NumberField::Duration, text: within_ms.clone() },
        ],
        Ok(AssertionSyntax::UartEcho { within_ms, .. }) => vec![
            NumberText { field: NumberField::Duration, text: within_ms.clone() },
        ],
        Ok(AssertionSyntax::ItmEvent { within_ms, .. }) => vec![
            NumberText { field: NumberField::Duration, text: within_ms.clone() },
        ],
        Err(e) => copy_numbers(&e.numbers),
    };
    assert(numbers_view(out@) =~= pending_numbers(parse_view(*r)));
    out
}

/// What reading a number text as a non-negative number gave.
#[derive(Debug, Clone, Copy, PartialEq, Eq, Structural)]
pub enum NumberCheck {
    /// A finite, non-negative number.
    Fine,
    /// Not a number at all.
    NotNumeric,
    /// A number, but negative, infinite or NaN.
    OutOfRange,
}

/// The message for a number text that failed its check.
pub open spec fn number_error_spec(n: (NumberField, Seq<char>), check: NumberCheck) -> Option<Seq<char>> {
    match check {
        NumberCheck::Fine => None,
        NumberCheck::NotNumeric => Some("expected a numeric "@ + field_name(n.0) + ", got "@ + str_debug_spec(n.1)),
        NumberCheck::OutOfRange => Some(field_name(n.0) + " must be a non-negative number, got "@ + str_debug_spec(n.1)),
    }
}

/// The name of a number field.
fn field_str(f: NumberField) -> (r: &'static str)
    ensures
        r@ == field_name(f),
{
    match f {
        NumberField::Frequency => "frequency",
        NumberField::Tolerance => "tolerance",
        NumberField::Duration => "duration",
    }
}

/// The message for a number text whose check failed, if it did.
pub fn number_error(n: &NumberText, check: NumberCheck) -> (r: Option<String>)
    ensures
        match r {
            Some(m) => number_error_spec((n.field, n.text@), check) == Some(m@),
            None => number_error_spec((n.field, n.text@), check) is None,
        },
{
    match check {
        NumberCheck::Fine => None,
        NumberCheck::NotNumeric => Some(
            String::from_str("expected a numeric ")
                .concat(field_str(n.field))
                .concat(", got ")
                .concat(str_debug(n.text.as_str()).as_str()),
        ),
        NumberCheck::OutOfRange => Some(
            String::from_str(field_str(n.field))
                .concat(" must be a non-negative number, got ")
                .concat(str_debug(n.text.as_str()).as_str()),
        ),
    }
}

/// The first failed check's message, the numbers checked in order.
pub open spec fn first_number_error(ns: NumbersView, checks: Seq<NumberCheck>) -> Option<Seq<char>>
    decreases ns.len(),
{
    if ns.len() == 0 || checks.len() == 0 {
        None
    } else {
        match number_error_spec(ns[0], checks[0]) {
            Some(m) => Some(m),
            None => first_number_error(ns.drop_first(), checks.drop_first()),
        }
    }
}

/// A parse settled by the checks of its pending number texts: the first bad
/// number's message, else the parse's own outcome.
pub open spec fn settled(r: ParseView, checks: Seq<NumberCheck>) -> Result<SyntaxView, Seq<char>> {
    match first_number_error(pending_numbers(r), checks) {
        Some(m) => Err(m),
        None => match r {
            Ok(a) => Ok(a),
            Err((m, _)) => Err(m),
        },
    }
}

/// The value of a settled parse.
pub open spec fn settled_view(r: Result<AssertionSyntax, String>) -> Result<SyntaxView, Seq<char>> {
    match r {
        Ok(a) => Ok(a@),
        Err(m) => Err(m@),
    }
}

/// Settle a parse with `checks[i]` the check of its `i`-th pending number
/// text ([`pending`]): the assertion, or the message to report.
pub fn settle(r: Result<AssertionSyntax, SyntaxError>, checks: &Vec<NumberCheck>) -> (out: Result<AssertionSyntax, String>)
    requires
        checks@.len() == pending_numbers(parse_view(r)).len(),
    ensures
        settled_view(out) == settled(parse_view(r), checks@),
{
    let ns = pending(&r);
    let ghost nv = numbers_view(ns@);
    let mut i: usize = 0;
    assert(nv.skip(0) =~= nv);
    assert(checks@.skip(0) =~= checks@);
    while i < ns.len()
        invariant
            ns@.len() == checks@.len(),
            nv == numbers_view(ns@),
            nv == pending_numbers(parse_view(r)),
            0 <= i <= ns@.len(),
            first_number_error(nv, checks@) == first_number_error(nv.skip(i as int), checks@.skip(i as int)),
        decreases ns.len() - i,
    {
        let ghost rest = nv.skip(i as int);
        let ghost crest = checks@.skip(i as int);
        assert(rest.drop_first() =~= nv.skip(i + 1));
        assert(crest.drop_first() =~= checks@.skip(i + 1));
        assert(rest[0] == (ns@[i as int].field, ns@[i as int].text@));
        match number_error(&ns[i], checks[i]) {
            Some(m) => return Err(m),
            None => {},
        }
        i += 1;
    }
    assert(nv.skip(i as int).len() == 0);
    match r {
        Ok(a) => Ok(a),
        Err(e) => Err(e.message),
    }
}

/// What the solver checks of an assertion: the pin it observes, the UART
/// instance it drives, or nothing for a trace event.
pub open spec fn subject_spec(a: SyntaxView) -> AssertionSubjectView {
    match a {
        SyntaxView::PinToggles { pin, .. } => AssertionSubjectView::Pin(pin),
        SyntaxView::PinState { pin, .. } => AssertionSubjectView::Pin(pin),
        SyntaxView::UartEcho { instance, .. } => AssertionSubjectView::Uart(instance),
        SyntaxView::ItmEvent { .. } => AssertionSubjectView::Trace,
    }
}

/// An assertion subject, as values.
pub enum AssertionSubjectView {
    Pin(Seq<char>),
    Uart(Seq<char>),
    Trace,
}

/// The value of an assertion subject.
pub open spec fn subject_view(s: AssertionSubject) -> AssertionSubjectView {
    match s {
        AssertionSubject::Pin(p) => AssertionSubjectView::Pin(p@),
        AssertionSubject::Uart(u) => AssertionSubjectView::Uart(u@),
        AssertionSubject::Trace => AssertionSubjectView::Trace,
    }
}

/// What the solver checks of a parsed assertion.
pub fn subject_of(a: &AssertionSyntax) -> (r: AssertionSubject)
    ensures
        subject_view(r) == subject_spec(a@),
{
    match a {
        AssertionSyntax::PinToggles { pin, .. } => AssertionSubject::Pin(owned(pin.as_str())),
        AssertionSyntax::PinState { pin, .. } => AssertionSubject::Pin(owned(pin.as_str())),
        AssertionSyntax::UartEcho { instance, .. } => AssertionSubject::Uart(owned(instance.as_str())),
        AssertionSyntax::ItmEvent { .. } => AssertionSubject::Trace,
    }
}

} // verus!
