//! The test history: one [`Run`] per `nucleus test` invocation, appended in
//! order, each with one [`TestEntry`] per assertion on a backend. The
//! per-run pass/fail/skip summary is what the dashboard graph draws.

use vstd::prelude::*;
use crate::text::{owned, str_eq};

verus! {

/// Schema id stamped into [`HistorySummary`].
pub const SUMMARY_SCHEMA: &'static str = "nucleus.history.v1";

/// One assertion's outcome on one backend within a run.
#[derive(Debug, Clone, PartialEq, Eq)]
pub struct TestEntry {
    /// The `[[test]]` block name.
    pub name: String,
    /// `"qemu"` or `"hardware"`.
    pub backend: String,
    /// `"pass"`, `"fail"` or `"skip"`.
    pub status: String,
    /// Human-readable detail.
    pub detail: String,
}

/// One `nucleus test` invocation: when it ran and what each assertion did.
#[derive(Debug, Clone, PartialEq, Eq)]
pub struct Run {
    /// Unix epoch seconds when the run started.
    pub timestamp: u64,
    pub tests: Vec<TestEntry>,
}

/// How many entries of `ts` have exactly status `s`.
pub open spec fn status_count(ts: Seq<TestEntry>, s: Seq<char>) -> nat
    decreases ts.len(),
{
    if ts.len() == 0 {
        0
    } else {
        status_count(ts.drop_last(), s) + if ts.last().status@ == s {
            1nat
        } else {
            0nat
        }
    }
}

proof fn lemma_status_counts(ts: Seq<TestEntry>)
    ensures
        status_count(ts, "pass"@) + status_count(ts, "fail"@) <= ts.len(),
    decreases ts.len(),
{
    reveal_strlit("pass");
    reveal_strlit("fail");
    if ts.len() > 0 {
        lemma_status_counts(ts.drop_last());
        assert("pass"@ != "fail"@) by {
            assert("pass"@[0] != "fail"@[0]);
        }
    }
}

impl Run {
    fn count(&self, status: &str) -> (n: usize)
        ensures
            n == status_count(self.tests@, status@),
    {
        let mut n: usize = 0;
        let mut i: usize = 0;
        while i < self.tests.len()
            invariant
                0 <= i <= self.tests@.len(),
                n == status_count(self.tests@.take(i as int), status@),
                n <= i,
            decreases self.tests@.len() - i,
        {
            assert(self.tests@.take(i + 1).drop_last() =~= self.tests@.take(i as int));
            assert(self.tests@.take(i + 1).last() == self.tests@[i as int]);
            if str_eq(self.tests[i].status.as_str(), status) {
                n += 1;
            }
            i += 1;
        }
        assert(self.tests@.take(self.tests@.len() as int) =~= self.tests@);
        n
    }

    /// Number of passing assertions.
    pub fn passed(&self) -> (n: usize)
        ensures
            n == status_count(self.tests@, "pass"@),
    {
        self.count("pass")
    }

    /// Number of failing assertions.
    pub fn failed(&self) -> (n: usize)
        ensures
            n == status_count(self.tests@, "fail"@),
    {
        self.count("fail")
    }

    /// Number of skipped assertions: every entry that neither passed nor failed.
    pub fn skipped(&self) -> (n: usize)
        ensures
            n == self.tests@.len() - status_count(self.tests@, "pass"@) - status_count(self.tests@, "fail"@),
    {
        proof {
            lemma_status_counts(self.tests@);
        }
        self.tests.len() - self.passed() - self.failed()
    }
}

/// The whole history: runs in the order they happened, oldest first.
#[derive(Debug, Clone, PartialEq, Eq)]
pub struct TestHistory {
    pub runs: Vec<Run>,
}

impl Default for TestHistory {
    fn default() -> (h: TestHistory)
        ensures
            h.runs@.len() == 0,
    {
        TestHistory { runs: Vec::new() }
    }
}

/// Per-run pass/fail/skip tally.
#[derive(Debug, Clone, PartialEq, Eq)]
pub struct RunSummary {
    pub timestamp: u64,
    pub pass: usize,
    pub fail: usize,
    pub skip: usize,
}

/// A list of run summaries, schema-tagged.
#[derive(Debug, Clone, PartialEq, Eq)]
pub struct HistorySummary {
    pub schema: String,
    pub runs: Vec<RunSummary>,
}

/// `s` summarizes run `r`.
pub open spec fn summarizes(s: RunSummary, r: Run) -> bool {
    &&& s.timestamp == r.timestamp
    &&& s.pass == status_count(r.tests@, "pass"@)
    &&& s.fail == status_count(r.tests@, "fail"@)
    &&& s.skip == r.tests@.len() - status_count(r.tests@, "pass"@) - status_count(r.tests@, "fail"@)
}

/// The index of the first run a `last` limit keeps of `n` runs.
pub open spec fn tail_start(n: nat, last: Option<usize>) -> nat {
    match last {
        Some(k) => if k < n {
            (n - k) as nat
        } else {
            0
        },
        None => 0,
    }
}

impl TestHistory {
    /// Append a run.
    pub fn push(&mut self, run: Run)
        ensures
            final(self).runs@ == old(self).runs@.push(run),
    {
        self.runs.push(run);
    }

    /// Per-run summary, oldest first; `last` keeps only the most recent
    /// `last` runs.
    pub fn summary(&self, last: Option<usize>) -> (s: HistorySummary)
        ensures
            s.schema@ == SUMMARY_SCHEMA@,
            ({
                let start = tail_start(self.runs@.len(), last);
                &&& s.runs@.len() == self.runs@.len() - start
                &&& forall|i: int| 0 <= i < s.runs@.len() ==> summarizes(#[trigger] s.runs@[i], self.runs@[start + i])
            }),
    {
        let n = self.runs.len();
        let start = match last {
            Some(k) => if k < n {
                n - k
            } else {
                0
            },
            None => 0,
        };
        let mut runs: Vec<RunSummary> = Vec::new();
        let mut i = start;
        while i < n
            invariant
                n == self.runs@.len(),
                start == tail_start(n as nat, last),
                start <= i <= n,
                runs@.len() == i - start,
                forall|t: int| 0 <= t < runs@.len() ==> summarizes(#[trigger] runs@[t], self.runs@[start + t]),
            decreases n - i,
        {
            let r = &self.runs[i];
            runs.push(RunSummary { timestamp: r.timestamp, pass: r.passed(), fail: r.failed(), skip: r.skipped() });
            i += 1;
        }
        HistorySummary { schema: owned(SUMMARY_SCHEMA), runs }
    }
}

} // verus!
