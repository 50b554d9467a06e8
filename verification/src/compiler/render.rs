//! Writing a routed assignment back into the configuration text: each newly
//! solved pin goes into its `[peripherals.<instance>]` table, and the rest
//! of the document (comments, formatting, key order) is left as it was.
//! The TOML editing itself is `toml_edit`'s.

use vstd::prelude::*;
use crate::compiler::config::Config;
use crate::compiler::router::{route, route_result};
use crate::compiler::solver::{pair_lt, views, AssertionSubject, Conflict, ConflictView};
use crate::text::{str_eq, str_lt};
use crate::db::{pin_name, Database, Pin};

verus! {

/// What `toml_edit` makes of the document `text` once each entry
/// `(instance, key, value)` is written, in order, as the string
/// `<table>.<instance>.<key> = "<value>"`; `None` where `text` is not a TOML
/// document or a path cannot hold the value.
pub uninterp spec fn routed_toml(
    text: Seq<char>,
    table: Seq<char>,
    entries: Seq<(Seq<char>, Seq<char>, Seq<char>)>,
) -> Option<Seq<char>>;

/// The values of `(instance, key, value)` entries.
pub open spec fn entries_view(v: Seq<(String, String, String)>) -> Seq<(Seq<char>, Seq<char>, Seq<char>)> {
    v.map_values(|e: (String, String, String)| (e.0@, e.1@, e.2@))
}

/// Write each `(instance, key, value)` of `entries` into the document
/// `text` as `<table>.<instance>.<key> = "<value>"`, and render it.
///
/// Parses `text` as a `toml_edit::DocumentMut`, assigns through
/// `Item::get_mut` (which adds a missing key, as indexing does) and renders
/// with `Display`. The contract names the result as a function of `text`,
/// `table` and the entries: `None` where the parse fails or a path step is
/// not a table.
#[verifier::external_body]
pub fn set_routed_pins(text: &str, table: &str, entries: &Vec<(String, String, String)>) -> (r: Option<String>)
    ensures
        match r {
            Some(s) => routed_toml(text@, table@, entries_view(entries@)) == Some(s@),
            None => routed_toml(text@, table@, entries_view(entries@)) is None,
        },
{
    let mut doc = text.parse::<toml_edit::DocumentMut>().ok()?;
    for (instance, key, value) in entries.iter() {
        let t = doc.as_item_mut().get_mut(table)?.get_mut(instance.as_str())?;
        *t.get_mut(key.as_str())? = toml_edit::value(value.as_str());
    }
    Some(doc.to_string())
}

/// Entry order: by instance, then by key (the order of a map keyed by
/// `(instance, key)`).
pub open spec fn entry_lt(a: (Seq<char>, Seq<char>, Seq<char>), b: (Seq<char>, Seq<char>, Seq<char>)) -> bool {
    pair_lt((a.0, a.1), (b.0, b.1))
}

/// `x` inserted into `s` after every entry not above it.
pub open spec fn insert_entry(
    s: Seq<(Seq<char>, Seq<char>, Seq<char>)>,
    x: (Seq<char>, Seq<char>, Seq<char>),
) -> Seq<(Seq<char>, Seq<char>, Seq<char>)>
    decreases s.len(),
{
    if s.len() == 0 {
        seq![x]
    } else if entry_lt(x, s.last()) {
        insert_entry(s.drop_last(), x).push(s.last())
    } else {
        s.push(x)
    }
}

/// The entries in `(instance, key)` order (stable insertion sort).
pub open spec fn sort_entries(s: Seq<(Seq<char>, Seq<char>, Seq<char>)>) -> Seq<(Seq<char>, Seq<char>, Seq<char>)>
    decreases s.len(),
{
    if s.len() == 0 {
        s
    } else {
        insert_entry(sort_entries(s.drop_last()), s.last())
    }
}

proof fn lemma_insert_entry_at(
    s: Seq<(Seq<char>, Seq<char>, Seq<char>)>,
    x: (Seq<char>, Seq<char>, Seq<char>),
    p: int,
)
    requires
        0 <= p <= s.len(),
        forall|i: int| p <= i < s.len() ==> entry_lt(x, #[trigger] s[i]),
        p == 0 || !entry_lt(x, s[p - 1]),
    ensures
        insert_entry(s, x) == s.take(p) + seq![x] + s.skip(p),
    decreases s.len(),
{
    if s.len() == 0 {
        assert(s.take(p) + seq![x] + s.skip(p) =~= seq![x]);
    } else if entry_lt(x, s.last()) {
        assert(p < s.len());
        let d = s.drop_last();
        assert forall|i: int| p <= i < d.len() implies entry_lt(x, #[trigger] d[i]) by {
            assert(d[i] == s[i]);
        }
        if p > 0 {
            assert(d[p - 1] == s[p - 1]);
        }
        lemma_insert_entry_at(d, x, p);
        assert(insert_entry(s, x) =~= s.take(p) + seq![x] + s.skip(p));
    } else {
        assert(p == s.len());
        assert(s.take(p) + seq![x] + s.skip(p) =~= s.push(x));
    }
}

fn entry_less(a: &(String, String, String), b: &(String, String, String)) -> (r: bool)
    ensures
        r == entry_lt((a.0@, a.1@, a.2@), (b.0@, b.1@, b.2@)),
{
    if str_lt(a.0.as_str(), b.0.as_str()) {
        true
    } else if str_eq(a.0.as_str(), b.0.as_str()) {
        str_lt(a.1.as_str(), b.1.as_str())
    } else {
        false
    }
}

fn insert_entry_into(v: &mut Vec<(String, String, String)>, x: (String, String, String))
    ensures
        entries_view(final(v)@) == insert_entry(entries_view(old(v)@), (x.0@, x.1@, x.2@)),
{
    let ghost m = entries_view(v@);
    let ghost xv = (x.0@, x.1@, x.2@);
    let mut p = v.len();
    while p > 0 && entry_less(&x, &v[p - 1])
        invariant
            p <= v@.len(),
            m == entries_view(v@),
            xv == (x.0@, x.1@, x.2@),
            forall|i: int| p <= i < v@.len() ==> entry_lt(xv, #[trigger] m[i]),
        decreases p,
    {
        p -= 1;
    }
    proof {
        lemma_insert_entry_at(m, xv, p as int);
    }
    v.insert(p, x);
    assert(entries_view(v@) =~= m.take(p as int) + seq![xv] + m.skip(p as int));
}

/// A routed `((instance, key), pin)` pair as the entry written for it.
pub open spec fn entry_of(e: ((Seq<char>, Seq<char>), Pin)) -> (Seq<char>, Seq<char>, Seq<char>) {
    (e.0.0, e.0.1, pin_name(e.1))
}

/// The values of routed pairs.
pub open spec fn assignment_view(a: Seq<((String, String), Pin)>) -> Seq<((Seq<char>, Seq<char>), Pin)> {
    a.map_values(|x: ((String, String), Pin)| ((x.0.0@, x.0.1@), x.1))
}

/// The entries a routed assignment writes: each pin by name, in
/// `(instance, key)` order.
pub open spec fn routed_entries(a: Seq<((Seq<char>, Seq<char>), Pin)>) -> Seq<(Seq<char>, Seq<char>, Seq<char>)> {
    sort_entries(a.map_values(|e| entry_of(e)))
}

/// The configuration text with each routed pin written, by name, into its
/// `[peripherals.<instance>]` table, the pins in `(instance, key)` order;
/// `None` where `toml_edit` cannot take the text.
pub fn render_routed(text: &str, assignment: &Vec<((String, String), Pin)>) -> (r: Option<String>)
    ensures
        match r {
            Some(s) => routed_toml(text@, "peripherals"@, routed_entries(assignment_view(assignment@))) == Some(s@),
            None => routed_toml(text@, "peripherals"@, routed_entries(assignment_view(assignment@))) is None,
        },
{
    let mut entries: Vec<(String, String, String)> = Vec::new();
    let mut i: usize = 0;
    while i < assignment.len()
        invariant
            0 <= i <= assignment.len(),
            entries_view(entries@) == routed_entries(assignment_view(assignment@.take(i as int))),
        decreases assignment.len() - i,
    {
        let ((instance, key), pin) = &assignment[i];
        let ghost prev = assignment_view(assignment@.take(i as int)).map_values(|e| entry_of(e));
        let ghost next = assignment_view(assignment@.take(i + 1)).map_values(|e| entry_of(e));
        assert(assignment@.take(i + 1) =~= assignment@.take(i as int).push(assignment@[i as int]));
        assert(next =~= prev.push(entry_of(((instance@, key@), *pin))));
        assert(next.drop_last() =~= prev);
        insert_entry_into(&mut entries, (instance.clone(), key.clone(), pin.to_string()));
        i += 1;
    }
    assert(assignment@.take(assignment.len() as int) =~= assignment@);
    set_routed_pins(text, "peripherals", &entries)
}

/// The value of a routed rendering.
pub open spec fn rendered_view(r: Result<Option<String>, Vec<Conflict>>) -> Result<Option<Seq<char>>, Seq<ConflictView>> {
    match r {
        Ok(Some(s)) => Ok(Some(s@)),
        Ok(None) => Ok(None),
        Err(cs) => Err(views(cs@)),
    }
}

/// What routing then rendering gives for the routing outcome `rv`.
pub open spec fn rendered_spec(
    text: Seq<char>,
    rv: Result<Seq<((Seq<char>, Seq<char>), Pin)>, Seq<ConflictView>>,
) -> Result<Option<Seq<char>>, Seq<ConflictView>> {
    match rv {
        Ok(a) => Ok(routed_toml(text, "peripherals"@, routed_entries(a))),
        Err(cs) => Err(cs),
    }
}

/// Route `config` (parsed from `text`) against `db`, and on success write
/// the newly solved pins into `text`: `Ok(Some(rendered))`, or `Ok(None)`
/// where `toml_edit` cannot take the text; the routing conflicts on failure.
pub fn route_rendered(
    text: &str,
    config: Config,
    db: &Database,
    parsed: &Vec<Result<AssertionSubject, String>>,
) -> (r: Result<Option<String>, Vec<Conflict>>)
    requires
        parsed@.len() == config.test@.len(),
    ensures
        exists|rv| #[trigger] route_result(config, db@, parsed@, rv) && rendered_view(r) == rendered_spec(text@, rv),
{
    match route(config, db, parsed) {
        Ok(assignment) => {
            let out = render_routed(text, &assignment);
            let ghost rv = crate::compiler::router::route_view(Ok::<Vec<((String, String), Pin)>, Vec<Conflict>>(assignment));
            assert(rv->Ok_0 =~= assignment_view(assignment@));
            assert(route_result(config, db@, parsed@, rv));
            Ok(out)
        },
        Err(cs) => {
            let ghost rv = crate::compiler::router::route_view(Err::<Vec<((String, String), Pin)>, Vec<Conflict>>(cs));
            assert(route_result(config, db@, parsed@, rv));
            Err(cs)
        },
    }
}

} // verus!
