//! The verdicts of the declarative assertions, from what a backend
//! observed: a pin reading, an ITM event, or a backend error. The caller
//! performs the observation (and any polling or waiting) and hands the
//! result here.

use vstd::prelude::*;
use crate::db::{parse_pin_spec, Pin};
use crate::hil::{hil_error_message, outcome_from_error, HilError, ItmEvent, TestOutcome, TestStatus};
use crate::text::{owned, str_debug, str_debug_spec};

verus! {

/// Whether `pattern` occurs as a contiguous run of `data` (the empty
/// pattern always does).
pub open spec fn occurs_in(data: Seq<u8>, pattern: Seq<u8>) -> bool {
    pattern.len() == 0 || exists|i: int| 0 <= i && i + pattern.len() <= data.len() && #[trigger] data.subrange(i, i + pattern.len()) == pattern
}

/// Whether `pattern` occurs in `data`.
pub fn contains_run(data: &Vec<u8>, pattern: &[u8]) -> (r: bool)
    ensures
        r == occurs_in(data@, pattern@),
{
    let m = pattern.len();
    if m == 0 {
        return true;
    }
    if data.len() < m {
        proof {
            assert forall|i: int| 0 <= i && i + m <= data@.len() implies #[trigger] data@.subrange(i, i + m) != pattern@ by {}
        }
        return false;
    }
    let n = data.len();
    let last = n - m;
    let mut i: usize = 0;
    while i <= last
        invariant
            m == pattern@.len(),
            m > 0,
            n == data@.len(),
            last + m == n,
            forall|k: int| 0 <= k < i && k + m <= data@.len() ==> #[trigger] data@.subrange(k, k + m) != pattern@,
        decreases last + 1 - i,
    {
        assert(i + m <= n);
        let mut j: usize = 0;
        let mut same = true;
        while j < m
            invariant
                0 <= j <= m,
                i + m <= data@.len(),
                n == data@.len(),
                m == pattern@.len(),
                same == (forall|t: int| 0 <= t < j ==> data@[i + t] == pattern@[t]),
            decreases m - j,
        {
            if data[i + j] != pattern[j] {
                same = false;
            }
            j += 1;
        }
        if same {
            assert(data@.subrange(i as int, i + m) =~= pattern@);
            return true;
        }
        proof {
            let t = choose|t: int| 0 <= t < m && data@[i + t] != pattern@[t];
            assert(data@.subrange(i as int, i + m)[t] != pattern@[t]);
        }
        i += 1;
    }
    false
}

/// The outcome for a pin string that does not parse.
pub open spec fn pin_parse_failure(pin: Seq<char>) -> Seq<char> {
    "internal error: pin "@ + str_debug_spec(pin) + " failed to parse despite compiler validation"@
}

/// Parse an assertion's pin, or fail the test naming it.
pub fn parse_pin_or_fail(name: &str, pin: &str) -> (r: Result<Pin, TestOutcome>)
    ensures
        match r {
            Ok(p) => parse_pin_spec(pin@) == Some(p),
            Err(o) => parse_pin_spec(pin@) is None && o.name@ == name@ && o.status == TestStatus::Failed && o.detail@
                == pin_parse_failure(pin@),
        },
{
    match Pin::parse(pin) {
        Ok(p) => Ok(p),
        Err(_) => {
            let mut detail = String::from_str("internal error: pin ");
            detail.append(str_debug(pin).as_str());
            detail.append(" failed to parse despite compiler validation");
            Err(TestOutcome { name: owned(name), status: TestStatus::Failed, detail })
        },
    }
}

/// One poll of a `pin_state` assertion: the pin reading (or backend error)
/// and whether the `within` window has elapsed. `None` means poll again.
pub fn pin_state_step(
    name: &str,
    pin: &str,
    level: bool,
    within_debug: &str,
    reading: Result<bool, HilError>,
    elapsed: bool,
) -> (r: Option<TestOutcome>)
    ensures
        match reading {
            Ok(v) => if v == level {
                r matches Some(o) && o.name@ == name@ && o.status == TestStatus::Passed && o.detail@ == pin@ + " reached level "@
                    + (if level {
                    "true"@
                } else {
                    "false"@
                })
            } else if elapsed {
                r matches Some(o) && o.name@ == name@ && o.status == TestStatus::Failed && o.detail@ == pin@ + " never reached level "@
                    + (if level {
                    "true"@
                } else {
                    "false"@
                }) + " within "@ + within_debug@
            } else {
                r is None
            },
            Err(e) => r matches Some(o) && o.name@ == name@ && o.status == (if e is NotObservable {
                TestStatus::Skipped
            } else {
                TestStatus::Failed
            }) && (hil_error_message(e) matches Some(m) ==> o.detail@ == m),
        },
{
    let level_text = if level {
        "true"
    } else {
        "false"
    };
    match reading {
        Ok(v) => {
            if v == level {
                let mut detail = owned(pin);
                detail.append(" reached level ");
                detail.append(level_text);
                Some(TestOutcome { name: owned(name), status: TestStatus::Passed, detail })
            } else if elapsed {
                let mut detail = owned(pin);
                detail.append(" never reached level ");
                detail.append(level_text);
                detail.append(" within ");
                detail.append(within_debug);
                Some(TestOutcome { name: owned(name), status: TestStatus::Failed, detail })
            } else {
                None
            }
        },
        Err(e) => Some(outcome_from_error(name, e)),
    }
}

/// The verdict of a `uart_echo` assertion from the ITM event awaited within
/// its window: passed when the event carries the payload.
pub fn uart_echo_outcome(
    name: &str,
    instance: &str,
    payload: &[u8],
    within_debug: &str,
    observed: Result<Option<ItmEvent>, HilError>,
) -> (o: TestOutcome)
    ensures
        o.name@ == name@,
        match observed {
            Ok(Some(ev)) => if occurs_in(ev.data@, payload@) {
                o.status == TestStatus::Passed && o.detail@ == "observed echoed payload on "@ + instance@
            } else {
                o.status == TestStatus::Failed && o.detail@ == "ITM event observed but did not contain expected payload for "@
                    + instance@
            },
            Ok(None) => o.status == TestStatus::Failed && o.detail@ == "no ITM event observed for "@ + instance@ + " within "@
                + within_debug@,
            Err(e) => o.status == (if e is NotObservable {
                TestStatus::Skipped
            } else {
                TestStatus::Failed
            }) && (hil_error_message(e) matches Some(m) ==> o.detail@ == m),
        },
{
    match observed {
        Ok(Some(event)) => {
            if contains_run(&event.data, payload) {
                let mut detail = String::from_str("observed echoed payload on ");
                detail.append(instance);
                TestOutcome { name: owned(name), status: TestStatus::Passed, detail }
            } else {
                let mut detail = String::from_str("ITM event observed but did not contain expected payload for ");
                detail.append(instance);
                TestOutcome { name: owned(name), status: TestStatus::Failed, detail }
            }
        },
        Ok(None) => {
            let mut detail = String::from_str("no ITM event observed for ");
            detail.append(instance);
            detail.append(" within ");
            detail.append(within_debug);
            TestOutcome { name: owned(name), status: TestStatus::Failed, detail }
        },
        Err(e) => outcome_from_error(name, e),
    }
}

/// The verdict of an `itm_event` assertion from the ITM event awaited
/// within its window: passed when the event's bytes contain the pattern's.
pub fn itm_event_outcome(
    name: &str,
    pattern: &str,
    within_debug: &str,
    observed: Result<Option<ItmEvent>, HilError>,
) -> (o: TestOutcome)
    ensures
        o.name@ == name@,
        match observed {
            Ok(Some(ev)) => if occurs_in(ev.data@, vstd::utf8::encode_utf8(pattern@)) {
                o.status == TestStatus::Passed && o.detail@ == "ITM event matched pattern "@ + str_debug_spec(pattern@)
            } else {
                o.status == TestStatus::Failed && o.detail@ == "ITM event observed but did not match pattern "@ + str_debug_spec(
                    pattern@,
                )
            },
            Ok(None) => o.status == TestStatus::Failed && o.detail@ == "no ITM event matching "@ + str_debug_spec(pattern@)
                + " observed within "@ + within_debug@,
            Err(e) => o.status == (if e is NotObservable {
                TestStatus::Skipped
            } else {
                TestStatus::Failed
            }) && (hil_error_message(e) matches Some(m) ==> o.detail@ == m),
        },
{
    match observed {
        Ok(Some(event)) => {
            let bytes = pattern.as_bytes();
            if contains_run(&event.data, bytes) {
                let mut detail = String::from_str("ITM event matched pattern ");
                detail.append(str_debug(pattern).as_str());
                TestOutcome { name: owned(name), status: TestStatus::Passed, detail }
            } else {
                let mut detail = String::from_str("ITM event observed but did not match pattern ");
                detail.append(str_debug(pattern).as_str());
                TestOutcome { name: owned(name), status: TestStatus::Failed, detail }
            }
        },
        Ok(None) => {
            let mut detail = String::from_str("no ITM event matching ");
            detail.append(str_debug(pattern).as_str());
            detail.append(" observed within ");
            detail.append(within_debug);
            TestOutcome { name: owned(name), status: TestStatus::Failed, detail }
        },
        Err(e) => outcome_from_error(name, e),
    }
}


/// The rising edges among the first `n` readings: adjacent pairs that go
/// from low to high.
pub open spec fn rising_edges_upto(levels: Seq<bool>, n: int) -> nat
    decreases n,
{
    if n <= 1 {
        0
    } else {
        rising_edges_upto(levels, n - 1) + if !levels[n - 2] && levels[n - 1] {
            1nat
        } else {
            0nat
        }
    }
}

/// The levels of a reading list.
pub open spec fn levels_of(readings: Seq<(std::time::Duration, bool)>) -> Seq<bool> {
    readings.map_values(|r: (std::time::Duration, bool)| r.1)
}

/// How many times a sampled pin went from low to high.
pub fn rising_edges(readings: &Vec<(std::time::Duration, bool)>) -> (n: usize)
    ensures
        n == rising_edges_upto(levels_of(readings@), readings@.len() as int),
{
    let ghost lv = levels_of(readings@);
    let mut n: usize = 0;
    let mut k: usize = 1;
    if readings.len() == 0 {
        return 0;
    }
    while k < readings.len()
        invariant
            1 <= k <= readings@.len(),
            lv == levels_of(readings@),
            n == rising_edges_upto(lv, k as int),
            n <= k,
        decreases readings@.len() - k,
    {
        if !readings[k - 1].1 && readings[k].1 {
            n += 1;
        }
        k += 1;
    }
    n
}

} // verus!
