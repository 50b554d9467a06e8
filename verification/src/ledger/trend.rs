//! Trend and verification views over the ledger: pure, deterministic
//! projections of the recorded versions (no clock or environment input).
//!
//! [`TrendData`] has one [`TrendPoint`] per version with per-backend
//! pass/fail/skip counts; a [`VerificationReport`] states, for one version,
//! what the verifier proved statically and what each backend proved at run
//! time.

use vstd::prelude::*;
use crate::ledger::{
    has_backend, is_short_of, is_summary_of, short_ok, Ledger, TestRecord, TestSummary, Verdict, Version,
};
use crate::text::{owned, seq_lt, str_eq};

verus! {

/// Schema id stamped into [`TrendData`].
pub const TREND_SCHEMA: &'static str = "nucleus.trend.v1";

/// Schema id stamped into [`VerificationReport`].
pub const REPORT_SCHEMA: &'static str = "nucleus.verification.v1";

/// Pass/fail/skip tally for one backend within a version.
#[derive(Debug, Clone, PartialEq, Eq)]
pub struct BackendCounts {
    pub backend: String,
    pub pass: usize,
    pub fail: usize,
    pub skip: usize,
}

impl BackendCounts {
    /// Assertions that actually ran (pass + fail; skips excluded).
    pub fn total(&self) -> (t: usize)
        requires
            self.pass + self.fail <= usize::MAX,
        ensures
            t == self.pass + self.fail,
    {
        self.pass + self.fail
    }
}

/// One version on the history timeline.
#[derive(Debug, Clone, PartialEq, Eq)]
pub struct TrendPoint {
    pub hash: String,
    pub short: String,
    pub timestamp: u64,
    pub family: String,
    /// Verifier approved (no error-level conflicts).
    pub approved: bool,
    /// Number of recorded conflicts (0 when approved).
    pub conflicts: usize,
    /// Per-backend counts, ordered by backend name.
    pub backends: Vec<BackendCounts>,
    /// Totals across all backends.
    pub pass: usize,
    pub fail: usize,
    pub skip: usize,
}

/// The full timeline.
#[derive(Debug, Clone, PartialEq, Eq)]
pub struct TrendData {
    pub schema: String,
    pub points: Vec<TrendPoint>,
}

/// The records of `ts` with status `"pass"` (`kind` 0), a failure (`kind`
/// 1: anything but pass or skip) or `"skip"` (`kind` 2), restricted to
/// backend `b` when `b` is `Some`.
pub open spec fn status_kind(status: Seq<char>) -> int {
    if status == "pass"@ {
        0
    } else if status == "skip"@ {
        2
    } else {
        1
    }
}

/// How many records of `ts` (on backend `b`, when given) have status kind `kind`.
pub open spec fn kind_count(ts: Seq<TestRecord>, b: Option<Seq<char>>, kind: int) -> nat
    decreases ts.len(),
{
    if ts.len() == 0 {
        0
    } else {
        kind_count(ts.drop_last(), b, kind) + if (b is None || b == Some(ts.last().backend@)) && status_kind(
            ts.last().status@,
        ) == kind {
            1nat
        } else {
            0nat
        }
    }
}

proof fn lemma_kind_count_bounded(ts: Seq<TestRecord>, b: Option<Seq<char>>, kind: int)
    ensures
        kind_count(ts, b, kind) <= ts.len(),
    decreases ts.len(),
{
    if ts.len() > 0 {
        lemma_kind_count_bounded(ts.drop_last(), b, kind);
    }
}

/// Count the pass, fail and skip records of `ts`, on backend `b` when given.
fn count_kinds(ts: &Vec<TestRecord>, b: Option<&str>) -> (r: (usize, usize, usize))
    ensures
        ({
            let key = match b {
                Some(s) => Some(s@),
                None => None,
            };
            &&& r.0 == kind_count(ts@, key, 0)
            &&& r.1 == kind_count(ts@, key, 1)
            &&& r.2 == kind_count(ts@, key, 2)
        }),
{
    let ghost key = match b {
        Some(s) => Some(s@),
        None => None::<Seq<char>>,
    };
    proof {
        reveal_strlit("pass");
        reveal_strlit("skip");
    }
    let mut pass: usize = 0;
    let mut fail: usize = 0;
    let mut skip: usize = 0;
    let mut i: usize = 0;
    while i < ts.len()
        invariant
            0 <= i <= ts@.len(),
            key == match b {
                Some(s) => Some(s@),
                None => None::<Seq<char>>,
            },
            pass == kind_count(ts@.take(i as int), key, 0),
            fail == kind_count(ts@.take(i as int), key, 1),
            skip == kind_count(ts@.take(i as int), key, 2),
        decreases ts@.len() - i,
    {
        assert(ts@.take(i + 1).drop_last() =~= ts@.take(i as int));
        assert(ts@.take(i + 1).last() == ts@[i as int]);
        proof {
            lemma_kind_count_bounded(ts@.take(i as int), key, 0);
            lemma_kind_count_bounded(ts@.take(i as int), key, 1);
            lemma_kind_count_bounded(ts@.take(i as int), key, 2);
        }
        let r = &ts[i];
        let selected = match b {
            Some(s) => str_eq(r.backend.as_str(), s),
            None => true,
        };
        if selected {
            if str_eq(r.status.as_str(), "pass") {
                pass += 1;
            } else if str_eq(r.status.as_str(), "skip") {
                skip += 1;
            } else {
                fail += 1;
            }
        }
        i += 1;
    }
    assert(ts@.take(ts@.len() as int) =~= ts@);
    (pass, fail, skip)
}

/// Whether `b` is one of `keys`.
pub open spec fn listed(keys: Seq<String>, b: Seq<char>) -> bool {
    exists|i: int| 0 <= i < keys.len() && #[trigger] keys[i]@ == b
}

/// The distinct backends of `ts`, in ascending order.
pub open spec fn is_backend_list(keys: Seq<String>, ts: Seq<TestRecord>) -> bool {
    &&& forall|i: int, j: int| 0 <= i < j < keys.len() ==> seq_lt(#[trigger] keys[i]@, #[trigger] keys[j]@)
    &&& forall|i: int| 0 <= i < keys.len() ==> has_backend(ts, #[trigger] keys[i]@)
    &&& forall|j: int| 0 <= j < ts.len() ==> listed(keys, #[trigger] ts[j].backend@)
}

/// The distinct backends of a version's results, in ascending order.
fn backends_of(version: &Version) -> (keys: Vec<String>)
    ensures
        is_backend_list(keys@, version.tests@),
{
    let summary: TestSummary = Ledger::test_summary(version);
    let ghost e = summary.entries@;
    let mut keys: Vec<String> = Vec::new();
    let mut i: usize = 0;
    while i < summary.entries.len()
        invariant
            e == summary.entries@,
            is_summary_of(e, version.tests@),
            0 <= i <= e.len(),
            keys@.len() == i,
            forall|t: int| 0 <= t < i ==> #[trigger] keys@[t]@ == e[t].0@,
        decreases e.len() - i,
    {
        keys.push(owned(summary.entries[i].0.as_str()));
        i += 1;
    }
    assert forall|x: int, y: int| 0 <= x < y < keys@.len() implies seq_lt(#[trigger] keys@[x]@, #[trigger] keys@[y]@) by {
        assert(seq_lt(e[x].0@, e[y].0@));
    }
    assert forall|x: int| 0 <= x < keys@.len() implies has_backend(version.tests@, #[trigger] keys@[x]@) by {
        assert(has_backend(version.tests@, e[x].0@));
    }
    assert forall|j: int| 0 <= j < version.tests@.len() implies listed(keys@, #[trigger] version.tests@[j].backend@) by {
        let x = choose|x: int| 0 <= x < e.len() && #[trigger] e[x].0@ == #[trigger] version.tests@[j].backend@;
        assert(keys@[x]@ == e[x].0@);
    }
    keys
}

/// The number of conflicts a verdict carries (0 when approved).
pub open spec fn verdict_conflicts(v: Verdict) -> nat {
    match v {
        Verdict::Approved => 0,
        Verdict::Conflicts(c) => c@.len(),
    }
}

/// `p` is the trend point of version `v`.
pub open spec fn is_point_for(p: TrendPoint, v: Version) -> bool {
    &&& p.hash@ == v.hash@
    &&& is_short_of(p.short@, v.hash@)
    &&& p.timestamp == v.timestamp
    &&& p.family@ == v.family@
    &&& p.approved == (v.verdict is Approved)
    &&& p.conflicts == verdict_conflicts(v.verdict)
    &&& p.pass == kind_count(v.tests@, None, 0)
    &&& p.fail == kind_count(v.tests@, None, 1)
    &&& p.skip == kind_count(v.tests@, None, 2)
    &&& exists|keys: Seq<String>| {
        &&& is_backend_list(keys, v.tests@)
        &&& p.backends@.len() == keys.len()
        &&& forall|i: int| 0 <= i < keys.len() ==> {
            let c = #[trigger] p.backends@[i];
            &&& c.backend@ == keys[i]@
            &&& c.pass == kind_count(v.tests@, Some(keys[i]@), 0)
            &&& c.fail == kind_count(v.tests@, Some(keys[i]@), 1)
            &&& c.skip == kind_count(v.tests@, Some(keys[i]@), 2)
        }
    }
}

/// The trend point of one version: its identity, verdict, overall totals and
/// per-backend counts ordered by backend name.
pub fn point_for(version: &Version) -> (p: TrendPoint)
    requires
        short_ok(version.hash@),
    ensures
        is_point_for(p, *version),
{
    let keys = backends_of(version);
    let mut backends: Vec<BackendCounts> = Vec::new();
    let mut i: usize = 0;
    while i < keys.len()
        invariant
            0 <= i <= keys@.len(),
            backends@.len() == i,
            forall|t: int| 0 <= t < i ==> {
                let c = #[trigger] backends@[t];
                &&& c.backend@ == keys@[t]@
                &&& c.pass == kind_count(version.tests@, Some(keys@[t]@), 0)
                &&& c.fail == kind_count(version.tests@, Some(keys@[t]@), 1)
                &&& c.skip == kind_count(version.tests@, Some(keys@[t]@), 2)
            },
        decreases keys@.len() - i,
    {
        let (pass, fail, skip) = count_kinds(&version.tests, Some(keys[i].as_str()));
        backends.push(BackendCounts { backend: owned(keys[i].as_str()), pass, fail, skip });
        i += 1;
    }
    let (pass, fail, skip) = count_kinds(&version.tests, None);
    let (approved, conflicts) = match &version.verdict {
        Verdict::Approved => (true, 0),
        Verdict::Conflicts(c) => (false, c.len()),
    };
    let p = TrendPoint {
        hash: owned(version.hash.as_str()),
        short: owned(version.short()),
        timestamp: version.timestamp,
        family: owned(version.family.as_str()),
        approved,
        conflicts,
        backends,
        pass,
        fail,
        skip,
    };
    assert(is_backend_list(keys@, version.tests@));
    p
}

/// The number of points a `last` limit keeps of `n` versions.
pub open spec fn trend_start(n: nat, last: Option<usize>) -> nat {
    match last {
        Some(k) => if k < n {
            (n - k) as nat
        } else {
            0
        },
        None => 0,
    }
}

impl Ledger {
    /// The trend timeline: one point per version, oldest first; `last` keeps
    /// only the most recent `last` versions.
    pub fn trend(&self, last: Option<usize>) -> (t: TrendData)
        requires
            forall|i: int|
                trend_start(self.versions@.len(), last) <= i < self.versions@.len() ==> short_ok(
                    #[trigger] self.versions@[i].hash@,
                ),
        ensures
            t.schema@ == TREND_SCHEMA@,
            ({
                let start = trend_start(self.versions@.len(), last);
                &&& t.points@.len() == self.versions@.len() - start
                &&& forall|i: int| 0 <= i < t.points@.len() ==> is_point_for(#[trigger] t.points@[i], self.versions@[start + i])
            }),
    {
        let n = self.versions.len();
        let start = match last {
            Some(k) => if k < n {
                n - k
            } else {
                0
            },
            None => 0,
        };
        let mut points: Vec<TrendPoint> = Vec::new();
        let mut i = start;
        while i < n
            invariant
                n == self.versions@.len(),
                forall|j: int| start <= j < n ==> short_ok(#[trigger] self.versions@[j].hash@),
                start == trend_start(n as nat, last),
                start <= i <= n,
                points@.len() == i - start,
                forall|t: int| 0 <= t < points@.len() ==> is_point_for(#[trigger] points@[t], self.versions@[start + t]),
            decreases n - i,
        {
            assert(short_ok(self.versions@[i as int].hash@));
            points.push(point_for(&self.versions[i]));
            i += 1;
        }
        TrendData { schema: owned(TREND_SCHEMA), points }
    }
}

/// The verifier's static verdict, restated for the report.
#[derive(Debug, Clone, PartialEq, Eq)]
pub struct StaticCheck {
    pub approved: bool,
    pub conflicts: Vec<String>,
}

/// One assertion's outcome, as it appears in a [`VerificationReport`].
#[derive(Debug, Clone, PartialEq, Eq)]
pub struct AssertionResult {
    pub name: String,
    pub status: String,
    pub detail: String,
}

/// What one backend proved for a version.
#[derive(Debug, Clone, PartialEq, Eq)]
pub struct BackendReport {
    pub backend: String,
    pub passed: usize,
    pub failed: usize,
    pub skipped: usize,
    pub results: Vec<AssertionResult>,
}

/// The machine-checkable verification record of one version: what the
/// verifier proved statically and what each backend proved at run time.
#[derive(Debug, Clone, PartialEq, Eq)]
pub struct VerificationReport {
    pub schema: String,
    pub hash: String,
    pub short: String,
    pub family: String,
    pub toolchain: String,
    pub timestamp: u64,
    pub static_check: StaticCheck,
    pub backends: Vec<BackendReport>,
    /// Backends on which at least one assertion ran and every one that ran
    /// passed.
    pub proven_on: Vec<String>,
}

/// The records of `ts` on backend `b`, in order.
pub open spec fn records_on(ts: Seq<TestRecord>, b: Seq<char>) -> Seq<TestRecord>
    decreases ts.len(),
{
    if ts.len() == 0 {
        Seq::empty()
    } else if ts.last().backend@ == b {
        records_on(ts.drop_last(), b).push(ts.last())
    } else {
        records_on(ts.drop_last(), b)
    }
}

/// `rs` restates `ts` record by record.
pub open spec fn restates(rs: Seq<AssertionResult>, ts: Seq<TestRecord>) -> bool {
    &&& rs.len() == ts.len()
    &&& forall|i: int|
        0 <= i < rs.len() ==> (#[trigger] rs[i]).name@ == ts[i].name@ && rs[i].status@ == ts[i].status@ && rs[i].detail@
            == ts[i].detail@
}

/// The backends of `bs` that proved something: no failure and at least one pass.
pub open spec fn proven_backends(bs: Seq<BackendReport>) -> Seq<Seq<char>>
    decreases bs.len(),
{
    if bs.len() == 0 {
        Seq::empty()
    } else if bs.last().failed == 0 && bs.last().passed > 0 {
        proven_backends(bs.drop_last()).push(bs.last().backend@)
    } else {
        proven_backends(bs.drop_last())
    }
}

/// The conflict messages a verdict carries.
pub open spec fn verdict_messages(v: Verdict) -> Seq<String> {
    match v {
        Verdict::Approved => Seq::empty(),
        Verdict::Conflicts(c) => c@,
    }
}

/// Two string lists with the same contents.
pub open spec fn same_strings(a: Seq<String>, b: Seq<String>) -> bool {
    a.len() == b.len() && forall|i: int| 0 <= i < a.len() ==> #[trigger] a[i]@ == b[i]@
}

/// `r` is the verification report of version `v`.
pub open spec fn is_report_for(r: VerificationReport, v: Version) -> bool {
    &&& r.schema@ == REPORT_SCHEMA@
    &&& r.hash@ == v.hash@
    &&& is_short_of(r.short@, v.hash@)
    &&& r.family@ == v.family@
    &&& r.toolchain@ == v.toolchain@
    &&& r.timestamp == v.timestamp
    &&& r.static_check.approved == (v.verdict is Approved)
    &&& same_strings(r.static_check.conflicts@, verdict_messages(v.verdict))
    &&& exists|keys: Seq<String>| {
        &&& is_backend_list(keys, v.tests@)
        &&& r.backends@.len() == keys.len()
        &&& forall|i: int| 0 <= i < keys.len() ==> {
            let b = #[trigger] r.backends@[i];
            &&& b.backend@ == keys[i]@
            &&& b.passed == kind_count(v.tests@, Some(keys[i]@), 0)
            &&& b.failed == kind_count(v.tests@, Some(keys[i]@), 1)
            &&& b.skipped == kind_count(v.tests@, Some(keys[i]@), 2)
            &&& restates(b.results@, records_on(v.tests@, keys[i]@))
        }
    }
    &&& r.proven_on@.len() == proven_backends(r.backends@).len()
    &&& forall|i: int| 0 <= i < r.proven_on@.len() ==> #[trigger] r.proven_on@[i]@ == proven_backends(r.backends@)[i]
}

fn results_on(ts: &Vec<TestRecord>, b: &str) -> (rs: Vec<AssertionResult>)
    ensures
        restates(rs@, records_on(ts@, b@)),
{
    let mut rs: Vec<AssertionResult> = Vec::new();
    let mut i: usize = 0;
    while i < ts.len()
        invariant
            0 <= i <= ts@.len(),
            restates(rs@, records_on(ts@.take(i as int), b@)),
        decreases ts@.len() - i,
    {
        assert(ts@.take(i + 1).drop_last() =~= ts@.take(i as int));
        assert(ts@.take(i + 1).last() == ts@[i as int]);
        let r = &ts[i];
        if str_eq(r.backend.as_str(), b) {
            rs.push(
                AssertionResult {
                    name: owned(r.name.as_str()),
                    status: owned(r.status.as_str()),
                    detail: owned(r.detail.as_str()),
                },
            );
        }
        i += 1;
    }
    assert(ts@.take(ts@.len() as int) =~= ts@);
    rs
}

fn copy_strings(v: &Vec<String>) -> (out: Vec<String>)
    ensures
        same_strings(out@, v@),
{
    let mut out: Vec<String> = Vec::new();
    let mut i: usize = 0;
    while i < v.len()
        invariant
            0 <= i <= v@.len(),
            out@.len() == i,
            forall|t: int| 0 <= t < i ==> #[trigger] out@[t]@ == v@[t]@,
        decreases v@.len() - i,
    {
        out.push(owned(v[i].as_str()));
        i += 1;
    }
    out
}

impl VerificationReport {
    /// The report of one recorded version.
    pub fn for_version(version: &Version) -> (r: VerificationReport)
        requires
            short_ok(version.hash@),
        ensures
            is_report_for(r, *version),
    {
        let keys = backends_of(version);
        let mut backends: Vec<BackendReport> = Vec::new();
        let mut i: usize = 0;
        while i < keys.len()
            invariant
                0 <= i <= keys@.len(),
                backends@.len() == i,
                forall|t: int| 0 <= t < i ==> {
                    let b = #[trigger] backends@[t];
                    &&& b.backend@ == keys@[t]@
                    &&& b.passed == kind_count(version.tests@, Some(keys@[t]@), 0)
                    &&& b.failed == kind_count(version.tests@, Some(keys@[t]@), 1)
                    &&& b.skipped == kind_count(version.tests@, Some(keys@[t]@), 2)
                    &&& restates(b.results@, records_on(version.tests@, keys@[t]@))
                },
            decreases keys@.len() - i,
        {
            let (passed, failed, skipped) = count_kinds(&version.tests, Some(keys[i].as_str()));
            let results = results_on(&version.tests, keys[i].as_str());
            backends.push(BackendReport { backend: owned(keys[i].as_str()), passed, failed, skipped, results });
            i += 1;
        }
        let mut proven_on: Vec<String> = Vec::new();
        let mut j: usize = 0;
        while j < backends.len()
            invariant
                0 <= j <= backends@.len(),
                proven_on@.len() == proven_backends(backends@.take(j as int)).len(),
                forall|t: int| 0 <= t < proven_on@.len() ==> #[trigger] proven_on@[t]@ == proven_backends(backends@.take(j as int))[t],
            decreases backends@.len() - j,
        {
            assert(backends@.take(j + 1).drop_last() =~= backends@.take(j as int));
            assert(backends@.take(j + 1).last() == backends@[j as int]);
            if backends[j].failed == 0 && backends[j].passed > 0 {
                proven_on.push(owned(backends[j].backend.as_str()));
            }
            j += 1;
        }
        assert(backends@.take(backends@.len() as int) =~= backends@);
        let static_check = match &version.verdict {
            Verdict::Approved => StaticCheck { approved: true, conflicts: Vec::new() },
            Verdict::Conflicts(c) => StaticCheck { approved: false, conflicts: copy_strings(c) },
        };
        let r = VerificationReport {
            schema: owned(REPORT_SCHEMA),
            hash: owned(version.hash.as_str()),
            short: owned(version.short()),
            family: owned(version.family.as_str()),
            toolchain: owned(version.toolchain.as_str()),
            timestamp: version.timestamp,
            static_check,
            backends,
            proven_on,
        };
        assert(is_backend_list(keys@, version.tests@));
        r
    }
}


/// The trend window is the most recent `last` versions (all of them when
/// `last` is absent or not smaller than the ledger), oldest first.
pub proof fn lemma_trend_window(n: nat, last: Option<usize>)
    ensures
        trend_start(n, last) <= n,
        n - trend_start(n, last) == match last {
            Some(k) => if k < n { k as int } else { n as int },
            None => n as int,
        },
{
}

/// The backends kept from `bs`: exactly those with a pass and no failure,
/// in their order in `bs`.
proof fn lemma_proven_members(bs: Seq<BackendReport>, x: Seq<char>)
    ensures
        proven_backends(bs).contains(x) <==> exists|i: int|
            0 <= i < bs.len() && (#[trigger] bs[i]).backend@ == x && bs[i].failed == 0 && bs[i].passed > 0,
        forall|k: int| #![trigger proven_backends(bs)[k]] 0 <= k < proven_backends(bs).len() ==> exists|i: int|
            0 <= i < bs.len() && #[trigger] bs[i].backend@ == proven_backends(bs)[k],
    decreases bs.len(),
{
    if bs.len() > 0 {
        let d = bs.drop_last();
        lemma_proven_members(d, x);
        assert forall|i: int| 0 <= i < d.len() implies #[trigger] d[i] == bs[i] by {}
        if exists|i: int| 0 <= i < bs.len() && (#[trigger] bs[i]).backend@ == x && bs[i].failed == 0 && bs[i].passed > 0 {
            let i = choose|i: int| 0 <= i < bs.len() && (#[trigger] bs[i]).backend@ == x && bs[i].failed == 0 && bs[i].passed > 0;
            if i < bs.len() - 1 {
                assert(d[i] == bs[i]);
            }
        }
        let p = proven_backends(bs);
        let q = proven_backends(d);
        let last = bs.last();
        if last.failed == 0 && last.passed > 0 {
            assert(p == q.push(last.backend@));
            if p.contains(x) {
                let k = choose|k: int| 0 <= k < p.len() && p[k] == x;
                if k < q.len() {
                    assert(q[k] == x);
                    assert(q.contains(x));
                }
            }
            if q.contains(x) {
                let k = choose|k: int| 0 <= k < q.len() && q[k] == x;
                assert(p[k] == x);
            }
            if last.backend@ == x {
                assert(p[q.len() as int] == x);
            }
        } else {
            assert(p == q);
        }
        if exists|i: int| 0 <= i < d.len() && (#[trigger] d[i]).backend@ == x && d[i].failed == 0 && d[i].passed > 0 {
            let i = choose|i: int| 0 <= i < d.len() && (#[trigger] d[i]).backend@ == x && d[i].failed == 0 && d[i].passed > 0;
            assert(bs[i] == d[i]);
        }
        assert forall|k: int| #![trigger p[k]] 0 <= k < p.len() implies exists|i: int|
            0 <= i < bs.len() && #[trigger] bs[i].backend@ == p[k] by {
            if k < q.len() {
                let i = choose|i: int| 0 <= i < d.len() && #[trigger] d[i].backend@ == q[k];
                assert(bs[i] == d[i]);
            } else {
                assert(bs[bs.len() - 1].backend@ == p[k]);
            }
        }
    }
}

/// The backends kept from an ascending list stay ascending.
proof fn lemma_proven_ascending(bs: Seq<BackendReport>)
    requires
        forall|i: int, j: int| 0 <= i < j < bs.len() ==> seq_lt(#[trigger] bs[i].backend@, #[trigger] bs[j].backend@),
    ensures
        forall|i: int, j: int| 0 <= i < j < proven_backends(bs).len() ==> seq_lt(
            #[trigger] proven_backends(bs)[i],
            #[trigger] proven_backends(bs)[j],
        ),
    decreases bs.len(),
{
    if bs.len() > 0 {
        let d = bs.drop_last();
        assert forall|i: int, j: int| 0 <= i < j < d.len() implies seq_lt(#[trigger] d[i].backend@, #[trigger] d[j].backend@) by {
            assert(d[i] == bs[i] && d[j] == bs[j]);
        }
        lemma_proven_ascending(d);
        lemma_proven_members(d, bs.last().backend@);
        let p = proven_backends(bs);
        let q = proven_backends(d);
        assert forall|i: int, j: int| 0 <= i < j < p.len() implies seq_lt(#[trigger] p[i], #[trigger] p[j]) by {
            if j >= q.len() {
                let w = choose|w: int| 0 <= w < d.len() && #[trigger] d[w].backend@ == q[i];
                assert(bs[w] == d[w]);
                assert(seq_lt(bs[w].backend@, bs[bs.len() - 1].backend@));
            }
        }
    }
}

/// A verification report lists, in ascending order, exactly the backends
/// with at least one pass and no failure among the version's results.
pub proof fn lemma_proven_on(r: VerificationReport, v: Version, b: Seq<char>)
    requires
        is_report_for(r, v),
    ensures
        (exists|i: int| 0 <= i < r.proven_on@.len() && #[trigger] r.proven_on@[i]@ == b) == (has_backend(v.tests@, b)
            && kind_count(v.tests@, Some(b), 0) > 0 && kind_count(v.tests@, Some(b), 1) == 0),
        forall|i: int, j: int| 0 <= i < j < r.proven_on@.len() ==> seq_lt(#[trigger] r.proven_on@[i]@, #[trigger] r.proven_on@[j]@),
{
    let keys = choose|keys: Seq<String>| {
        &&& is_backend_list(keys, v.tests@)
        &&& r.backends@.len() == keys.len()
        &&& forall|i: int| 0 <= i < keys.len() ==> {
            let c = #[trigger] r.backends@[i];
            &&& c.backend@ == keys[i]@
            &&& c.passed == kind_count(v.tests@, Some(keys[i]@), 0)
            &&& c.failed == kind_count(v.tests@, Some(keys[i]@), 1)
            &&& c.skipped == kind_count(v.tests@, Some(keys[i]@), 2)
            &&& restates(c.results@, records_on(v.tests@, keys[i]@))
        }
    };
    let bs = r.backends@;
    let p = proven_backends(bs);
    assert forall|i: int, j: int| 0 <= i < j < bs.len() implies seq_lt(#[trigger] bs[i].backend@, #[trigger] bs[j].backend@) by {
        assert(bs[i].backend@ == keys[i]@ && bs[j].backend@ == keys[j]@);
    }
    lemma_proven_ascending(bs);
    lemma_proven_members(bs, b);
    assert forall|i: int| 0 <= i < r.proven_on@.len() implies #[trigger] r.proven_on@[i]@ == p[i] by {}
    if exists|i: int| 0 <= i < r.proven_on@.len() && #[trigger] r.proven_on@[i]@ == b {
        let i = choose|i: int| 0 <= i < r.proven_on@.len() && #[trigger] r.proven_on@[i]@ == b;
        assert(p[i] == b);
        assert(p.contains(b));
        let w = choose|w: int| 0 <= w < bs.len() && (#[trigger] bs[w]).backend@ == b && bs[w].failed == 0 && bs[w].passed > 0;
        assert(bs[w].backend@ == keys[w]@);
    }
    if has_backend(v.tests@, b) && kind_count(v.tests@, Some(b), 0) > 0 && kind_count(v.tests@, Some(b), 1) == 0 {
        let j = choose|j: int| 0 <= j < v.tests@.len() && #[trigger] v.tests@[j].backend@ == b;
        assert(listed(keys, v.tests@[j].backend@));
        let w = choose|w: int| 0 <= w < keys.len() && #[trigger] keys[w]@ == v.tests@[j].backend@;
        assert(bs[w].backend@ == keys[w]@);
        assert(p.contains(b));
        let k = choose|k: int| 0 <= k < p.len() && p[k] == b;
        assert(r.proven_on@[k]@ == b);
    }
    assert forall|i: int, j: int| 0 <= i < j < r.proven_on@.len() implies seq_lt(#[trigger] r.proven_on@[i]@, #[trigger] r.proven_on@[j]@) by {
        assert(r.proven_on@[i]@ == p[i] && r.proven_on@[j]@ == p[j]);
    }
}

} // verus!
