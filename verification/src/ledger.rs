//! The project ledger: every project version is content-addressed by the
//! SHA-256 of its identity inputs (`stm32.toml`, resolved config, firmware
//! binary, toolchain identity) and records the verifier verdict, the solved
//! assignment and the per-backend test results.
//!
//! Two properties define the store: re-recording an unchanged version is
//! recognized as the same version (no duplicate entry), and a version's
//! identity is written once; only its test results change afterwards.

use vstd::prelude::*;
use sha2::Digest;
use vstd::string::*;
use crate::text::{
    lemma_seq_lt_irreflexive, lemma_seq_lt_total, lemma_seq_lt_transitive, owned, seq_lt, str_debug,
    str_debug_spec, str_eq, str_lt,
};

pub mod trend;

verus! {

/// Number of leading hex characters used as a version's short id.
pub const SHORT_HASH_LEN: usize = 7;

/// The verifier's verdict for a version: approved (conflict-free) or the
/// rendered messages of the conflicts that blocked it.
#[derive(Debug, Clone, PartialEq, Eq)]
pub enum Verdict {
    Approved,
    Conflicts(Vec<String>),
}

/// One assertion's outcome on one backend.
#[derive(Debug, Clone, PartialEq, Eq)]
pub struct TestRecord {
    /// The `[[test]]` block name.
    pub name: String,
    /// `"qemu"` or `"hardware"`.
    pub backend: String,
    /// `"pass"`, `"fail"` or `"skip"`.
    pub status: String,
    /// Human-readable detail.
    pub detail: String,
}

/// One tracked project version: an immutable identity plus its test results.
#[derive(Debug, Clone, PartialEq, Eq)]
pub struct Version {
    /// Full lowercase-hex SHA-256 of the identity inputs.
    pub hash: String,
    /// Unix epoch seconds of the first recording (not part of the identity).
    pub timestamp: u64,
    pub family: String,
    pub toolchain: String,
    /// The raw `stm32.toml` text.
    pub stm32_toml: String,
    /// The resolved config text, when it differs from `stm32_toml`.
    pub solved_config: Option<String>,
    pub verdict: Verdict,
    /// Per-backend assertion outcomes, accumulated across test runs.
    pub tests: Vec<TestRecord>,
}

/// The short id of a hash: its first [`SHORT_HASH_LEN`] characters.
pub open spec fn short_spec(hash: Seq<char>) -> Seq<char> {
    if hash.len() < SHORT_HASH_LEN {
        hash
    } else {
        hash.take(SHORT_HASH_LEN as int)
    }
}

/// The byte length of the short id of a hash: [`SHORT_HASH_LEN`] bytes, or
/// the whole hash when it is shorter.
pub open spec fn short_byte_len(hash: Seq<char>) -> int {
    let n = vstd::utf8::encode_utf8(hash).len();
    if n < SHORT_HASH_LEN { n as int } else { SHORT_HASH_LEN as int }
}

/// The short id can be cut from `hash`: it is ASCII, or the cut falls on a
/// character boundary.
pub open spec fn short_ok(hash: Seq<char>) -> bool {
    vstd::utf8::is_ascii_chars(hash) || vstd::utf8::is_char_boundary(
        vstd::utf8::encode_utf8(hash),
        short_byte_len(hash),
    )
}

/// `s` is the short id of `hash`: its first [`SHORT_HASH_LEN`] bytes (of an
/// ASCII hash, its first characters).
pub open spec fn is_short_of(s: Seq<char>, hash: Seq<char>) -> bool {
    &&& vstd::utf8::encode_utf8(s) == vstd::utf8::encode_utf8(hash).take(short_byte_len(hash))
    &&& vstd::utf8::is_ascii_chars(hash) ==> s == short_spec(hash)
}

impl Version {
    /// The short id: the first [`SHORT_HASH_LEN`] bytes of the hash (of an
    /// ASCII hex hash, its first characters).
    pub fn short(&self) -> (s: &str)
        requires
            short_ok(self.hash@),
        ensures
            is_short_of(s@, self.hash@),
    {
        let h = self.hash.as_str();
        if h.is_ascii() {
            let n = h.unicode_len();
            let k = if n < SHORT_HASH_LEN { n } else { SHORT_HASH_LEN };
            let s = h.substring_ascii(0, k);
            assert(h@.subrange(0, n as int) =~= h@);
            proof {
                vstd::utf8::is_ascii_chars_encode_utf8(h@);
                assert(vstd::utf8::is_ascii_chars(s@));
                vstd::utf8::is_ascii_chars_encode_utf8(s@);
                assert(vstd::utf8::encode_utf8(s@) =~= vstd::utf8::encode_utf8(h@).take(short_byte_len(h@)));
            }
            s
        } else {
            let b = h.as_bytes().len();
            let k = if b < SHORT_HASH_LEN { b } else { SHORT_HASH_LEN };
            assert(h.spec_bytes() == vstd::utf8::encode_utf8(h@));
            assert(k == short_byte_len(h@));
            let (s, _) = h.split_at(k);
            assert(s.spec_bytes() == vstd::utf8::encode_utf8(s@));
            assert(vstd::utf8::encode_utf8(h@).subrange(0, k as int) =~= vstd::utf8::encode_utf8(h@).take(k as int));
            s
        }
    }
}

/// The identity inputs of a version, borrowed from the caller.
pub struct VersionInputs<'a> {
    /// The raw `stm32.toml` text.
    pub stm32_toml: &'a str,
    /// The resolved config text (the same text when not auto-routed).
    pub resolved_config: &'a str,
    /// The release firmware binary.
    pub firmware_bin: &'a [u8],
    /// The toolchain identity string.
    pub toolchain: &'a str,
}

/// The SHA-256 digest of a byte string.
pub uninterp spec fn sha256_digest(data: Seq<u8>) -> Seq<u8>;

/// `Sha256::digest` from the `sha2` crate. The contract names the digest as
/// a function of the input bytes alone and states its documented length of
/// 32 bytes; the compression function itself is not modelled.
#[verifier::external_body]
fn sha256(data: &[u8]) -> (d: Vec<u8>)
    ensures
        d@ == sha256_digest(data@),
        d@.len() == 32,
{
    sha2::Sha256::digest(data).to_vec()
}

/// The `k` low-order bytes of `n`, least significant first.
pub open spec fn le_bytes(n: nat, k: nat) -> Seq<u8>
    decreases k,
{
    if k == 0 {
        Seq::empty()
    } else {
        seq![(n % 256) as u8] + le_bytes(n / 256, (k - 1) as nat)
    }
}

/// A field framed by its 8-byte little-endian length.
pub open spec fn framed(field: Seq<u8>) -> Seq<u8> {
    le_bytes(field.len(), 8) + field
}

/// The byte stream that is hashed: each identity field length-prefixed, so
/// no two different field splits give the same stream.
pub open spec fn identity_stream(i: VersionInputs) -> Seq<u8> {
    framed(i.stm32_toml.spec_bytes()) + framed(i.resolved_config.spec_bytes()) + framed(i.firmware_bin@)
        + framed(i.toolchain.spec_bytes())
}

/// The lowercase hex digit for a value below 16.
pub open spec fn hex_digit(d: nat) -> char {
    if d < 10 {
        ((d + 48) as u32) as char
    } else {
        ((d + 87) as u32) as char
    }
}

/// Lowercase hex, two digits per byte.
pub open spec fn hex_string(bytes: Seq<u8>) -> Seq<char>
    decreases bytes.len(),
{
    if bytes.len() == 0 {
        Seq::empty()
    } else {
        hex_string(bytes.drop_last()) + seq![hex_digit(bytes.last() as nat / 16), hex_digit(bytes.last() as nat % 16)]
    }
}

/// The content hash of a version's identity inputs.
pub open spec fn version_hash(i: VersionInputs) -> Seq<char> {
    hex_string(sha256_digest(identity_stream(i)))
}

fn push_le_u64(out: &mut Vec<u8>, n: u64)
    ensures
        final(out)@ == old(out)@ + le_bytes(n as nat, 8),
{
    let ghost start = out@;
    let mut x = n;
    let mut k: u64 = 0;
    while k < 8
        invariant
            0 <= k <= 8,
            out@ + le_bytes(x as nat, (8 - k) as nat) == start + le_bytes(n as nat, 8),
        decreases 8 - k,
    {
        let ghost before = out@;
        out.push((x % 256) as u8);
        assert(le_bytes(x as nat, (8 - k) as nat) == seq![(x % 256) as u8] + le_bytes((x / 256) as nat, (8 - k - 1) as nat));
        assert(out@ + le_bytes((x / 256) as nat, (8 - k - 1) as nat) =~= before + le_bytes(x as nat, (8 - k) as nat));
        x = x / 256;
        k += 1;
    }
    assert(le_bytes(x as nat, 0) =~= Seq::<u8>::empty());
    assert(out@ =~= out@ + le_bytes(x as nat, 0));
}

fn push_bytes(out: &mut Vec<u8>, bytes: &[u8])
    ensures
        final(out)@ == old(out)@ + bytes@,
{
    let ghost start = out@;
    let mut i: usize = 0;
    while i < bytes.len()
        invariant
            0 <= i <= bytes@.len(),
            out@ == start + bytes@.take(i as int),
        decreases bytes@.len() - i,
    {
        out.push(bytes[i]);
        assert(bytes@.take(i + 1) =~= bytes@.take(i as int).push(bytes@[i as int]));
        assert(out@ =~= start + bytes@.take(i + 1));
        i += 1;
    }
    assert(bytes@.take(bytes@.len() as int) =~= bytes@);
}

fn push_framed(out: &mut Vec<u8>, field: &[u8])
    ensures
        final(out)@ == old(out)@ + framed(field@),
{
    let ghost start = out@;
    push_le_u64(out, field.len() as u64);
    push_bytes(out, field);
    assert(out@ =~= start + framed(field@));
}

pub(crate) fn hex_digit_str(d: u8) -> (s: &'static str)
    requires
        d < 16,
    ensures
        s@ == seq![hex_digit(d as nat)],
{
    if d < 10 {
        crate::text::digit_str(d as u64)
    } else {
        proof {
            reveal_strlit("a");
            reveal_strlit("b");
            reveal_strlit("c");
            reveal_strlit("d");
            reveal_strlit("e");
            reveal_strlit("f");
        }
        if d == 10 {
            "a"
        } else if d == 11 {
            "b"
        } else if d == 12 {
            "c"
        } else if d == 13 {
            "d"
        } else if d == 14 {
            "e"
        } else {
            "f"
        }
    }
}

fn hex_encode(bytes: &Vec<u8>) -> (s: String)
    ensures
        s@ == hex_string(bytes@),
{
    let mut s = String::new();
    let mut i: usize = 0;
    while i < bytes.len()
        invariant
            0 <= i <= bytes@.len(),
            s@ == hex_string(bytes@.take(i as int)),
        decreases bytes@.len() - i,
    {
        let b = bytes[i];
        assert(bytes@.take(i + 1).drop_last() =~= bytes@.take(i as int));
        s.append(hex_digit_str(b / 16));
        s.append(hex_digit_str(b % 16));
        i += 1;
        assert(s@ =~= hex_string(bytes@.take(i as int)));
    }
    assert(bytes@.take(bytes@.len() as int) =~= bytes@);
    s
}

/// Deterministic content hash of a version's identity inputs: SHA-256 over
/// the length-prefixed fields, rendered as lowercase hex.
pub fn compute_hash(inputs: &VersionInputs) -> (h: String)
    ensures
        h@ == version_hash(*inputs),
        h@.len() == 64,
{
    let mut stream: Vec<u8> = Vec::new();
    push_framed(&mut stream, inputs.stm32_toml.as_bytes());
    push_framed(&mut stream, inputs.resolved_config.as_bytes());
    push_framed(&mut stream, inputs.firmware_bin);
    push_framed(&mut stream, inputs.toolchain.as_bytes());
    assert(stream@ =~= identity_stream(*inputs));
    let digest = sha256(stream.as_slice());
    let h = hex_encode(&digest);
    proof {
        lemma_hex_len(digest@);
    }
    h
}

proof fn lemma_hex_len(bytes: Seq<u8>)
    ensures
        hex_string(bytes).len() == 2 * bytes.len(),
    decreases bytes.len(),
{
    if bytes.len() > 0 {
        lemma_hex_len(bytes.drop_last());
    }
}

/// Why a short-hash lookup failed.
#[derive(Debug, Clone, PartialEq, Eq)]
pub enum ResolveError {
    /// No version's hash starts with the query.
    NotFound(String),
    /// More than one version's hash starts with the query; the short ids of
    /// the matches, in ledger order.
    Ambiguous(String, Vec<String>),
}

/// `a, b, c`.
pub open spec fn join_comma(items: Seq<String>) -> Seq<char>
    decreases items.len(),
{
    if items.len() == 0 {
        Seq::empty()
    } else if items.len() == 1 {
        items[0]@
    } else {
        join_comma(items.drop_last()) + ", "@ + items.last()@
    }
}

/// The message of a lookup failure.
pub open spec fn resolve_error_message(e: ResolveError) -> Seq<char> {
    match e {
        ResolveError::NotFound(q) => "no version matches "@ + str_debug_spec(q@),
        ResolveError::Ambiguous(q, m) => str_debug_spec(q@) + " is ambiguous: matches "@ + join_comma(m@),
    }
}

impl ResolveError {
    /// The message, e.g. `"abc" is ambiguous: matches abc1111, abc2222`.
    pub fn to_string(&self) -> (s: String)
        ensures
            s@ == resolve_error_message(*self),
    {
        match self {
            ResolveError::NotFound(q) => {
                let mut s = String::from_str("no version matches ");
                s.append(str_debug(q.as_str()).as_str());
                s
            },
            ResolveError::Ambiguous(q, m) => {
                let mut s = str_debug(q.as_str());
                s.append(" is ambiguous: matches ");
                let mut i: usize = 0;
                let ghost start = s@;
                while i < m.len()
                    invariant
                        0 <= i <= m@.len(),
                        s@ == start + join_comma(m@.take(i as int)),
                    decreases m@.len() - i,
                {
                    assert(m@.take(i + 1).drop_last() =~= m@.take(i as int));
                    if i > 0 {
                        s.append(", ");
                    } else {
                        assert(m@.take(0) =~= Seq::<String>::empty());
                    }
                    s.append(m[i].as_str());
                    i += 1;
                    assert(s@ =~= start + join_comma(m@.take(i as int)));
                }
                assert(m@.take(m@.len() as int) =~= m@);
                s
            },
        }
    }
}

/// The ledger: versions in the order they were first recorded.
#[derive(Debug, Clone)]
pub struct Ledger {
    pub versions: Vec<Version>,
}

impl Default for Ledger {
    fn default() -> (l: Ledger)
        ensures
            l.versions@.len() == 0,
    {
        Ledger { versions: Vec::new() }
    }
}

/// Whether some version of `vs` has hash `h`.
pub open spec fn has_hash(vs: Seq<Version>, h: Seq<char>) -> bool {
    exists|i: int| 0 <= i < vs.len() && #[trigger] vs[i].hash@ == h
}

/// No two versions share a hash.
pub open spec fn hashes_distinct(vs: Seq<Version>) -> bool {
    forall|i: int, j: int| 0 <= i < j < vs.len() ==> #[trigger] vs[i].hash@ != #[trigger] vs[j].hash@
}

/// `v` is the fresh version `record` appends for these arguments.
pub open spec fn fresh_version(
    v: Version,
    h: Seq<char>,
    inputs: VersionInputs,
    family: Seq<char>,
    verdict: Verdict,
    timestamp: u64,
) -> bool {
    &&& v.hash@ == h
    &&& v.timestamp == timestamp
    &&& v.family@ == family
    &&& v.toolchain@ == inputs.toolchain@
    &&& v.stm32_toml@ == inputs.stm32_toml@
    &&& if inputs.resolved_config@ == inputs.stm32_toml@ {
        v.solved_config is None
    } else {
        v.solved_config matches Some(c) && c@ == inputs.resolved_config@
    }
    &&& v.verdict == verdict
    &&& v.tests@.len() == 0
}

/// Two records address the same `(name, backend)` slot.
pub open spec fn same_slot(a: TestRecord, b: TestRecord) -> bool {
    a.name@ == b.name@ && a.backend@ == b.backend@
}

/// The first index of `ts` holding `r`'s slot, or `-1`.
pub open spec fn slot_index(ts: Seq<TestRecord>, r: TestRecord) -> int
    decreases ts.len(),
{
    if ts.len() == 0 {
        -1
    } else {
        let k = slot_index(ts.drop_last(), r);
        if k >= 0 {
            k
        } else if same_slot(ts.last(), r) {
            ts.len() - 1
        } else {
            -1
        }
    }
}

/// `ts` with `r` attached: replacing the record of the same slot, or
/// appended when the slot is new.
pub open spec fn merge_one(ts: Seq<TestRecord>, r: TestRecord) -> Seq<TestRecord> {
    let k = slot_index(ts, r);
    if k >= 0 {
        ts.update(k, r)
    } else {
        ts.push(r)
    }
}

/// `ts` with every record of `rs` attached in order.
pub open spec fn merge_records(ts: Seq<TestRecord>, rs: Seq<TestRecord>) -> Seq<TestRecord>
    decreases rs.len(),
{
    if rs.len() == 0 {
        ts
    } else {
        merge_one(merge_records(ts, rs.drop_last()), rs.last())
    }
}

/// The first index of `vs` with hash `h`, or `-1`.
pub open spec fn hash_index(vs: Seq<Version>, h: Seq<char>) -> int
    decreases vs.len(),
{
    if vs.len() == 0 {
        -1
    } else {
        let k = hash_index(vs.drop_last(), h);
        if k >= 0 {
            k
        } else if vs.last().hash@ == h {
            vs.len() - 1
        } else {
            -1
        }
    }
}

/// `b` carries the identity of `a` (everything but the test results).
pub open spec fn same_identity(a: Version, b: Version) -> bool {
    &&& a.hash == b.hash
    &&& a.timestamp == b.timestamp
    &&& a.family == b.family
    &&& a.toolchain == b.toolchain
    &&& a.stm32_toml == b.stm32_toml
    &&& a.solved_config == b.solved_config
    &&& a.verdict == b.verdict
}

proof fn lemma_hash_index(vs: Seq<Version>, h: Seq<char>)
    ensures
        -1 <= hash_index(vs, h) < vs.len(),
        hash_index(vs, h) >= 0 <==> has_hash(vs, h),
        hash_index(vs, h) >= 0 ==> vs[hash_index(vs, h)].hash@ == h,
        forall|j: int| 0 <= j < hash_index(vs, h) ==> vs[j].hash@ != h,
        hash_index(vs, h) < 0 ==> forall|j: int| 0 <= j < vs.len() ==> vs[j].hash@ != h,
    decreases vs.len(),
{
    if vs.len() > 0 {
        lemma_hash_index(vs.drop_last(), h);
        if has_hash(vs, h) {
            let i = choose|i: int| 0 <= i < vs.len() && #[trigger] vs[i].hash@ == h;
            if i < vs.len() - 1 {
                assert(vs.drop_last()[i].hash@ == h);
            }
        }
        assert forall|j: int| 0 <= j < vs.len() - 1 implies vs.drop_last()[j] == vs[j] by {}
        if hash_index(vs.drop_last(), h) < 0 && vs.last().hash@ != h {
            assert forall|j: int| 0 <= j < vs.len() implies vs[j].hash@ != h by {
                if j < vs.len() - 1 {
                    assert(vs.drop_last()[j].hash@ != h);
                }
            }
        }
    }
}

proof fn lemma_slot_index(ts: Seq<TestRecord>, r: TestRecord)
    ensures
        -1 <= slot_index(ts, r) < ts.len(),
        slot_index(ts, r) >= 0 ==> same_slot(ts[slot_index(ts, r)], r),
        forall|j: int| 0 <= j < ts.len() && (slot_index(ts, r) < 0 || j < slot_index(ts, r)) ==> !same_slot(ts[j], r),
    decreases ts.len(),
{
    if ts.len() > 0 {
        lemma_slot_index(ts.drop_last(), r);
        assert forall|j: int| 0 <= j < ts.len() - 1 implies ts.drop_last()[j] == ts[j] by {}
    }
}

impl Ledger {
    /// Whether a version with this full hash is recorded.
    pub fn contains(&self, hash: &str) -> (r: bool)
        ensures
            r == has_hash(self.versions@, hash@),
    {
        let mut i: usize = 0;
        while i < self.versions.len()
            invariant
                0 <= i <= self.versions@.len(),
                forall|j: int| 0 <= j < i ==> self.versions@[j].hash@ != hash@,
            decreases self.versions@.len() - i,
        {
            if str_eq(self.versions[i].hash.as_str(), hash) {
                return true;
            }
            i += 1;
        }
        false
    }

    /// Content-addressed insert: computes the identity hash; an existing
    /// version with that hash is left untouched (`(hash, false)`), otherwise
    /// a fresh version with no test results is appended (`(hash, true)`).
    /// `timestamp` stamps a fresh version only.
    pub fn record(&mut self, inputs: &VersionInputs, family: &str, verdict: Verdict, timestamp: u64) -> (r: (
        String,
        bool,
    ))
        ensures
            r.0@ == version_hash(*inputs),
            r.1 == !has_hash(old(self).versions@, r.0@),
            !r.1 ==> final(self).versions@ == old(self).versions@,
            r.1 ==> final(self).versions@.drop_last() == old(self).versions@ && final(self).versions@.len()
                == old(self).versions@.len() + 1 && fresh_version(
                final(self).versions@.last(),
                r.0@,
                *inputs,
                family@,
                verdict,
                timestamp,
            ),
            has_hash(final(self).versions@, r.0@),
            hashes_distinct(old(self).versions@) ==> hashes_distinct(final(self).versions@),
    {
        let hash = compute_hash(inputs);
        if self.contains(hash.as_str()) {
            return (hash, false);
        }
        let solved_config = if str_eq(inputs.resolved_config, inputs.stm32_toml) {
            None
        } else {
            Some(owned(inputs.resolved_config))
        };
        let h2 = owned(hash.as_str());
        let ghost before = self.versions@;
        self.versions.push(
            Version {
                hash: h2,
                timestamp,
                family: owned(family),
                toolchain: owned(inputs.toolchain),
                stm32_toml: owned(inputs.stm32_toml),
                solved_config,
                verdict,
                tests: Vec::new(),
            },
        );
        assert(self.versions@.drop_last() =~= before);
        assert(self.versions@[self.versions@.len() - 1].hash@ == hash@);
        (hash, true)
    }

    /// Attach test outcomes to the version with this full hash, replacing
    /// any prior outcome for the same `(name, backend)` slot. `false` (and
    /// nothing changed) when no version has the hash. Only the results of
    /// that one version change; every identity stays as it was.
    pub fn record_tests(&mut self, hash: &str, records: Vec<TestRecord>) -> (r: bool)
        ensures
            r == has_hash(old(self).versions@, hash@),
            !r ==> final(self).versions@ == old(self).versions@,
            r ==> {
                let k = hash_index(old(self).versions@, hash@);
                &&& final(self).versions@.len() == old(self).versions@.len()
                &&& forall|j: int| 0 <= j < old(self).versions@.len() && j != k ==> final(self).versions@[j] == old(self).versions@[j]
                &&& same_identity(old(self).versions@[k], final(self).versions@[k])
                &&& final(self).versions@[k].tests@ == merge_records(old(self).versions@[k].tests@, records@)
            },
            forall|j: int| 0 <= j < final(self).versions@.len() ==> same_identity(old(self).versions@[j], #[trigger] final(self).versions@[j]),
    {
        proof {
            lemma_hash_index(self.versions@, hash@);
        }
        let mut k: usize = 0;
        while k < self.versions.len()
            invariant
                0 <= k <= self.versions@.len(),
                forall|j: int| 0 <= j < k ==> self.versions@[j].hash@ != hash@,
            ensures
                0 <= k <= self.versions@.len(),
                forall|j: int| 0 <= j < k ==> self.versions@[j].hash@ != hash@,
                k < self.versions@.len() ==> self.versions@[k as int].hash@ == hash@,
            decreases self.versions@.len() - k,
        {
            if str_eq(self.versions[k].hash.as_str(), hash) {
                break;
            }
            k += 1;
        }
        if k == self.versions.len() {
            return false;
        }
        let ghost old_versions = self.versions@;
        assert(k == hash_index(old_versions, hash@)) by {
            lemma_hash_index(old_versions, hash@);
        }
        let v = self.versions.remove(k);
        let Version { hash: vh, timestamp, family, toolchain, stm32_toml, solved_config, verdict, tests } = v;
        let tests = merge_tests(tests, records);
        self.versions.insert(
            k,
            Version { hash: vh, timestamp, family, toolchain, stm32_toml, solved_config, verdict, tests },
        );
        assert forall|j: int| 0 <= j < old_versions.len() && j != k implies self.versions@[j] == old_versions[j] by {}
        true
    }
}

/// Attach `records` to `tests` slot by slot.
fn merge_tests(tests: Vec<TestRecord>, records: Vec<TestRecord>) -> (out: Vec<TestRecord>)
    ensures
        out@ == merge_records(tests@, records@),
{
    let mut out = tests;
    let mut rest = records;
    let ghost all = rest@;
    let ghost start = out@;
    let mut done: usize = 0;
    let n = rest.len();
    while rest.len() > 0
        invariant
            all.len() == n,
            done + rest@.len() == all.len(),
            rest@ == all.skip(done as int),
            out@ == merge_records(start, all.take(done as int)),
        decreases rest@.len(),
    {
        let r = rest.remove(0);
        assert(all.take(done + 1).drop_last() =~= all.take(done as int));
        assert(all.take(done + 1).last() == r);
        proof {
            lemma_slot_index(out@, r);
        }
        let ghost before = out@;
        let mut i: usize = 0;
        while i < out.len()
            invariant
                0 <= i <= out@.len(),
                out@ == before,
                forall|j: int| 0 <= j < i ==> !same_slot(out@[j], r),
            ensures
                0 <= i <= out@.len(),
                out@ == before,
                forall|j: int| 0 <= j < i ==> !same_slot(out@[j], r),
                i < out@.len() ==> same_slot(out@[i as int], r),
            decreases out@.len() - i,
        {
            if str_eq(out[i].name.as_str(), r.name.as_str()) && str_eq(out[i].backend.as_str(), r.backend.as_str()) {
                break;
            }
            i += 1;
        }
        if i < out.len() {
            assert(i == slot_index(before, r));
            out.set(i, r);
        } else {
            assert(slot_index(before, r) < 0);
            out.push(r);
        }
        done += 1;
        assert(rest@ =~= all.skip(done as int));
    }
    assert(all.take(all.len() as int) =~= all);
    out
}

/// Whether hash `h` starts with the query `q`.
pub open spec fn hash_matches(h: Seq<char>, q: Seq<char>) -> bool {
    q.len() <= h.len() && h.subrange(0, q.len() as int) == q
}

/// The versions whose hash starts with `q`, in ledger order.
pub open spec fn matching(vs: Seq<Version>, q: Seq<char>) -> Seq<Version>
    decreases vs.len(),
{
    if vs.len() == 0 {
        Seq::empty()
    } else if hash_matches(vs.last().hash@, q) {
        matching(vs.drop_last(), q).push(vs.last())
    } else {
        matching(vs.drop_last(), q)
    }
}

impl Ledger {
    /// Resolve a (possibly short) hash query: the one version whose hash
    /// starts with `query`, `NotFound` when none does, `Ambiguous` with the
    /// short ids of all matches when several do.
    pub fn find(&self, query: &str) -> (r: Result<&Version, ResolveError>)
        requires
            matching(self.versions@, query@).len() >= 2 ==> forall|i: int|
                0 <= i < matching(self.versions@, query@).len() ==> short_ok(
                    #[trigger] matching(self.versions@, query@)[i].hash@,
                ),
        ensures
            ({
                let m = matching(self.versions@, query@);
                &&& m.len() == 0 ==> (r matches Err(ResolveError::NotFound(q)) && q@ == query@)
                &&& m.len() == 1 ==> (r matches Ok(v) && *v == m[0])
                &&& m.len() >= 2 ==> (r matches Err(ResolveError::Ambiguous(q, shorts)) && q@ == query@
                    && shorts@.len() == m.len() && forall|i: int|
                    0 <= i < m.len() ==> is_short_of(#[trigger] shorts@[i]@, m[i].hash@))
            }),
    {
        let ghost vs = self.versions@;
        let mut idx: Vec<usize> = Vec::new();
        let mut i: usize = 0;
        while i < self.versions.len()
            invariant
                vs == self.versions@,
                0 <= i <= vs.len(),
                idx@.len() == matching(vs.take(i as int), query@).len(),
                forall|t: int| 0 <= t < idx@.len() ==> #[trigger] idx@[t] < vs.len() && vs[idx@[t] as int] == matching(vs.take(i as int), query@)[t],
            decreases vs.len() - i,
        {
            assert(vs.take(i + 1).drop_last() =~= vs.take(i as int));
            assert(vs.take(i + 1).last() == vs[i as int]);
            if crate::text::starts_with(self.versions[i].hash.as_str(), query) {
                idx.push(i);
            }
            i += 1;
        }
        assert(vs.take(vs.len() as int) =~= vs);
        let ghost m = matching(vs, query@);
        if idx.len() == 0 {
            Err(ResolveError::NotFound(owned(query)))
        } else if idx.len() == 1 {
            Ok(&self.versions[idx[0]])
        } else {
            let mut shorts: Vec<String> = Vec::new();
            let mut t: usize = 0;
            while t < idx.len()
                invariant
                    vs == self.versions@,
                    forall|u: int| 0 <= u < m.len() ==> short_ok(#[trigger] m[u].hash@),
                    m == matching(vs, query@),
                    idx@.len() == m.len(),
                    forall|u: int| 0 <= u < idx@.len() ==> #[trigger] idx@[u] < vs.len() && vs[idx@[u] as int] == m[u],
                    0 <= t <= idx@.len(),
                    shorts@.len() == t,
                    forall|u: int| 0 <= u < t ==> is_short_of(#[trigger] shorts@[u]@, m[u].hash@),
                decreases idx@.len() - t,
            {
                let v = &self.versions[idx[t]];
                assert(short_ok(m[t as int].hash@));
                shorts.push(owned(v.short()));
                t += 1;
            }
            Err(ResolveError::Ambiguous(owned(query), shorts))
        }
    }
}

/// How many records of `ts` for backend `b` passed.
pub open spec fn pass_count(ts: Seq<TestRecord>, b: Seq<char>) -> nat
    decreases ts.len(),
{
    if ts.len() == 0 {
        0
    } else {
        pass_count(ts.drop_last(), b) + if ts.last().backend@ == b && ts.last().status@ == "pass"@ {
            1nat
        } else {
            0nat
        }
    }
}

/// How many records of `ts` for backend `b` ran (anything but a skip).
pub open spec fn run_count(ts: Seq<TestRecord>, b: Seq<char>) -> nat
    decreases ts.len(),
{
    if ts.len() == 0 {
        0
    } else {
        run_count(ts.drop_last(), b) + if ts.last().backend@ == b && ts.last().status@ != "skip"@ {
            1nat
        } else {
            0nat
        }
    }
}

/// Whether some record of `ts` ran on backend `b`.
pub open spec fn has_backend(ts: Seq<TestRecord>, b: Seq<char>) -> bool {
    exists|j: int| 0 <= j < ts.len() && #[trigger] ts[j].backend@ == b
}

/// `entries` is the per-backend summary of `ts`: one entry per backend that
/// occurs, in ascending backend order, with `(passed, ran)` counts where a
/// skip counts toward neither.
pub open spec fn is_summary_of(entries: Seq<(String, (usize, usize))>, ts: Seq<TestRecord>) -> bool {
    &&& forall|i: int, j: int| 0 <= i < j < entries.len() ==> seq_lt(#[trigger] entries[i].0@, #[trigger] entries[j].0@)
    &&& forall|i: int|
        0 <= i < entries.len() ==> has_backend(ts, #[trigger] entries[i].0@) && entries[i].1.0 == pass_count(ts, entries[i].0@)
            && entries[i].1.1 == run_count(ts, entries[i].0@)
    &&& forall|j: int| 0 <= j < ts.len() ==> exists|i: int| 0 <= i < entries.len() && #[trigger] entries[i].0@ == #[trigger] ts[j].backend@
}

/// A per-backend pass/total summary, ordered by backend name.
#[derive(Debug, Clone, PartialEq, Eq)]
pub struct TestSummary {
    pub entries: Vec<(String, (usize, usize))>,
}

impl TestSummary {
    /// The `(passed, ran)` counts of `backend`, if it has an entry.
    pub fn get(&self, backend: &str) -> (r: Option<(usize, usize)>)
        ensures
            r matches Some(c) ==> exists|i: int| 0 <= i < self.entries@.len() && #[trigger] self.entries@[i].0@ == backend@ && self.entries@[i].1 == c,
            r is None ==> forall|i: int| 0 <= i < self.entries@.len() ==> #[trigger] self.entries@[i].0@ != backend@,
    {
        let mut i: usize = 0;
        while i < self.entries.len()
            invariant
                0 <= i <= self.entries@.len(),
                forall|j: int| 0 <= j < i ==> #[trigger] self.entries@[j].0@ != backend@,
            decreases self.entries@.len() - i,
        {
            if str_eq(self.entries[i].0.as_str(), backend) {
                return Some(self.entries[i].1);
            }
            i += 1;
        }
        None
    }

    /// The number of backends summarized.
    pub fn len(&self) -> (n: usize)
        ensures
            n == self.entries@.len(),
    {
        self.entries.len()
    }
}

proof fn lemma_counts_bounded(ts: Seq<TestRecord>, b: Seq<char>)
    ensures
        pass_count(ts, b) <= ts.len(),
        run_count(ts, b) <= ts.len(),
    decreases ts.len(),
{
    if ts.len() > 0 {
        lemma_counts_bounded(ts.drop_last(), b);
    }
}

/// One more record folded into a summary: the counts of its backend's entry
/// grow, every other entry stays.
proof fn lemma_summary_bump(
    old_entries: Seq<(String, (usize, usize))>,
    new_entries: Seq<(String, (usize, usize))>,
    prev: Seq<TestRecord>,
    r: TestRecord,
    p: int,
)
    requires
        is_summary_of(old_entries, prev),
        0 <= p < old_entries.len(),
        old_entries[p].0@ == r.backend@,
        new_entries.len() == old_entries.len(),
        new_entries[p].0@ == r.backend@,
        new_entries[p].1.0 == old_entries[p].1.0 + if r.status@ == "pass"@ { 1int } else { 0int },
        new_entries[p].1.1 == old_entries[p].1.1 + if r.status@ != "skip"@ { 1int } else { 0int },
        forall|j: int| 0 <= j < old_entries.len() && j != p ==> new_entries[j] == old_entries[j],
    ensures
        is_summary_of(new_entries, prev.push(r)),
{
    let next = prev.push(r);
    assert(next.drop_last() =~= prev);
    assert forall|j: int| 0 <= j < prev.len() implies next[j] == prev[j] by {}
    assert forall|x: int, y: int| 0 <= x < y < new_entries.len() implies seq_lt(#[trigger] new_entries[x].0@, #[trigger] new_entries[y].0@) by {
        assert(new_entries[x].0@ == old_entries[x].0@);
        assert(new_entries[y].0@ == old_entries[y].0@);
    }
    assert forall|j: int| 0 <= j < new_entries.len() implies has_backend(next, #[trigger] new_entries[j].0@)
        && new_entries[j].1.0 == pass_count(next, new_entries[j].0@) && new_entries[j].1.1 == run_count(next, new_entries[j].0@) by {
        let k = old_entries[j].0@;
        assert(new_entries[j].0@ == k);
        assert(has_backend(prev, k));
        if j != p {
            lemma_seq_lt_irreflexive(k);
            if j < p {
                assert(seq_lt(old_entries[j].0@, old_entries[p].0@));
            } else {
                assert(seq_lt(old_entries[p].0@, old_entries[j].0@));
            }
        }
        let w = choose|w: int| 0 <= w < prev.len() && #[trigger] prev[w].backend@ == k;
        assert(next[w].backend@ == k);
        assert(next.last() == r);
    }
    assert forall|j: int| 0 <= j < next.len() implies exists|e: int| 0 <= e < new_entries.len() && #[trigger] new_entries[e].0@ == #[trigger] next[j].backend@ by {
        if j < prev.len() {
            assert(prev[j] == next[j]);
            let e = choose|e: int| 0 <= e < old_entries.len() && #[trigger] old_entries[e].0@ == #[trigger] prev[j].backend@;
            assert(new_entries[e].0@ == old_entries[e].0@);
        } else {
            assert(new_entries[p].0@ == next[j].backend@);
        }
    }
}

/// A record of a backend without an entry, folded into a summary: a fresh
/// entry goes in at its sorted place.
proof fn lemma_summary_insert(
    old_entries: Seq<(String, (usize, usize))>,
    new_entries: Seq<(String, (usize, usize))>,
    prev: Seq<TestRecord>,
    r: TestRecord,
    p: int,
)
    requires
        is_summary_of(old_entries, prev),
        0 <= p <= old_entries.len(),
        forall|j: int| 0 <= j < p ==> seq_lt(#[trigger] old_entries[j].0@, r.backend@),
        p < old_entries.len() ==> !seq_lt(old_entries[p].0@, r.backend@) && old_entries[p].0@ != r.backend@,
        new_entries.len() == old_entries.len() + 1,
        new_entries[p].0@ == r.backend@,
        new_entries[p].1.0 == if r.status@ == "pass"@ { 1int } else { 0int },
        new_entries[p].1.1 == if r.status@ != "skip"@ { 1int } else { 0int },
        forall|j: int| 0 <= j < p ==> new_entries[j] == old_entries[j],
        forall|j: int| p < j < new_entries.len() ==> new_entries[j] == old_entries[j - 1],
    ensures
        is_summary_of(new_entries, prev.push(r)),
{
    let b = r.backend@;
    let next = prev.push(r);
    assert(next.drop_last() =~= prev);
    assert forall|j: int| 0 <= j < prev.len() implies next[j] == prev[j] by {}
    if p < old_entries.len() {
        lemma_seq_lt_total(old_entries[p].0@, b);
    }
    assert forall|e: int| p <= e < old_entries.len() implies seq_lt(b, #[trigger] old_entries[e].0@) by {
        if e > p {
            assert(seq_lt(old_entries[p].0@, old_entries[e].0@));
            lemma_seq_lt_transitive(b, old_entries[p].0@, old_entries[e].0@);
        }
    }
    assert(!has_backend(prev, b)) by {
        if has_backend(prev, b) {
            let w = choose|w: int| 0 <= w < prev.len() && #[trigger] prev[w].backend@ == b;
            let e = choose|e: int| 0 <= e < old_entries.len() && #[trigger] old_entries[e].0@ == #[trigger] prev[w].backend@;
            lemma_seq_lt_irreflexive(b);
            if e < p {
                assert(seq_lt(old_entries[e].0@, b));
            } else {
                assert(seq_lt(b, old_entries[e].0@));
            }
        }
    }
    lemma_pass_zero(prev, b);
    assert forall|x: int, y: int| 0 <= x < y < new_entries.len() implies seq_lt(#[trigger] new_entries[x].0@, #[trigger] new_entries[y].0@) by {
        if y == p {
            assert(seq_lt(old_entries[x].0@, b));
        } else if x == p {
            assert(seq_lt(b, old_entries[y - 1].0@));
        } else if x < p && y > p {
            assert(seq_lt(old_entries[x].0@, b));
            assert(seq_lt(b, old_entries[y - 1].0@));
            lemma_seq_lt_transitive(old_entries[x].0@, b, old_entries[y - 1].0@);
        } else if x > p {
            assert(seq_lt(old_entries[x - 1].0@, old_entries[y - 1].0@));
        } else {
            assert(seq_lt(old_entries[x].0@, old_entries[y].0@));
        }
    }
    assert forall|j: int| 0 <= j < new_entries.len() implies has_backend(next, #[trigger] new_entries[j].0@)
        && new_entries[j].1.0 == pass_count(next, new_entries[j].0@) && new_entries[j].1.1 == run_count(next, new_entries[j].0@) by {
        assert(next.last() == r);
        if j == p {
            assert(next[prev.len() as int].backend@ == b);
        } else {
            let oj = if j < p { j } else { j - 1 };
            assert(new_entries[j] == old_entries[oj]);
            let k = old_entries[oj].0@;
            assert(has_backend(prev, k));
            let w = choose|w: int| 0 <= w < prev.len() && #[trigger] prev[w].backend@ == k;
            assert(next[w].backend@ == k);
            if oj < p {
                lemma_seq_lt_irreflexive(b);
                assert(seq_lt(k, b));
            } else {
                lemma_seq_lt_irreflexive(b);
                assert(seq_lt(b, k));
            }
        }
    }
    assert forall|j: int| 0 <= j < next.len() implies exists|e: int| 0 <= e < new_entries.len() && #[trigger] new_entries[e].0@ == #[trigger] next[j].backend@ by {
        if j < prev.len() {
            assert(prev[j] == next[j]);
            let e = choose|e: int| 0 <= e < old_entries.len() && #[trigger] old_entries[e].0@ == #[trigger] prev[j].backend@;
            if e < p {
                assert(new_entries[e].0@ == next[j].backend@);
            } else {
                assert(new_entries[e + 1].0@ == next[j].backend@);
            }
        } else {
            assert(new_entries[p].0@ == next[j].backend@);
        }
    }
}

fn add_to_summary(entries: &mut Vec<(String, (usize, usize))>, Ghost(prev): Ghost<Seq<TestRecord>>, rec: &TestRecord)
    requires
        is_summary_of(old(entries)@, prev),
        prev.len() < usize::MAX,
    ensures
        is_summary_of(final(entries)@, prev.push(*rec)),
{
    let ghost b = rec.backend@;
    let ghost old_entries = entries@;
    let is_pass = str_eq(rec.status.as_str(), "pass");
    let is_skip = str_eq(rec.status.as_str(), "skip");
    proof {
        reveal_strlit("pass");
        reveal_strlit("skip");
    }
    let mut p: usize = 0;
    while p < entries.len() && str_lt(entries[p].0.as_str(), rec.backend.as_str())
        invariant
            entries@ == old_entries,
            b == rec.backend@,
            0 <= p <= entries@.len(),
            forall|j: int| 0 <= j < p ==> seq_lt(#[trigger] entries@[j].0@, b),
        decreases entries@.len() - p,
    {
        p += 1;
    }
    if p < entries.len() && str_eq(entries[p].0.as_str(), rec.backend.as_str()) {
        let (pass, run) = entries[p].1;
        proof {
            let k = old_entries[p as int].0@;
            lemma_counts_bounded(prev, k);
        }
        let np = if is_pass { pass + 1 } else { pass };
        let nr = if is_skip { run } else { run + 1 };
        let key = owned(entries[p].0.as_str());
        entries.set(p, (key, (np, nr)));
        proof {
            lemma_summary_bump(old_entries, entries@, prev, *rec, p as int);
        }
    } else {
        let key = owned(rec.backend.as_str());
        let np: usize = if is_pass { 1 } else { 0 };
        let nr: usize = if is_skip { 0 } else { 1 };
        entries.insert(p, (key, (np, nr)));
        proof {
            lemma_summary_insert(old_entries, entries@, prev, *rec, p as int);
        }
    }
}

impl Ledger {
    /// Per-backend `(passed, ran)` summary of a version's results; a skip
    /// counts toward neither.
    pub fn test_summary(version: &Version) -> (s: TestSummary)
        ensures
            is_summary_of(s.entries@, version.tests@),
    {
        let ghost ts = version.tests@;
        let mut entries: Vec<(String, (usize, usize))> = Vec::new();
        let mut i: usize = 0;
        while i < version.tests.len()
            invariant
                ts == version.tests@,
                0 <= i <= ts.len(),
                is_summary_of(entries@, ts.take(i as int)),
            decreases ts.len() - i,
        {
            add_to_summary(&mut entries, Ghost(ts.take(i as int)), &version.tests[i]);
            assert(ts.take(i as int).push(ts[i as int]) =~= ts.take(i + 1));
            i += 1;
        }
        assert(ts.take(ts.len() as int) =~= ts);
        TestSummary { entries }
    }
}

proof fn lemma_pass_zero(ts: Seq<TestRecord>, b: Seq<char>)
    requires
        !has_backend(ts, b),
    ensures
        pass_count(ts, b) == 0,
        run_count(ts, b) == 0,
    decreases ts.len(),
{
    if ts.len() > 0 {
        assert(ts.last() == ts[ts.len() - 1]);
        assert(!has_backend(ts.drop_last(), b)) by {
            if has_backend(ts.drop_last(), b) {
                let w = choose|w: int| 0 <= w < ts.drop_last().len() && #[trigger] ts.drop_last()[w].backend@ == b;
                assert(ts[w].backend@ == b);
            }
        }
        lemma_pass_zero(ts.drop_last(), b);
    }
}

impl Verdict {
    /// The verdict of a checked configuration: approved when no conflict is
    /// an error, else every conflict's rendered message, in order.
    pub fn from_conflicts(conflicts: &Vec<crate::compiler::solver::Conflict>) -> (v: Verdict)
        ensures
            !crate::compiler::has_error(conflicts@) ==> v == Verdict::Approved,
            crate::compiler::has_error(conflicts@) ==> (v matches Verdict::Conflicts(ms) && ms@.len() == conflicts@.len()
                && forall|i: int| 0 <= i < ms@.len() ==> #[trigger] ms@[i]@ == crate::compiler::solver::conflict_message(conflicts@[i])),
    {
        if !crate::compiler::any_error(conflicts) {
            return Verdict::Approved;
        }
        let mut ms: Vec<String> = Vec::new();
        let mut i: usize = 0;
        while i < conflicts.len()
            invariant
                0 <= i <= conflicts@.len(),
                ms@.len() == i,
                forall|j: int| 0 <= j < i ==> #[trigger] ms@[j]@ == crate::compiler::solver::conflict_message(conflicts@[j]),
            decreases conflicts@.len() - i,
        {
            ms.push(conflicts[i].to_string());
            i += 1;
        }
        Verdict::Conflicts(ms)
    }
}


/// A test summary has one entry per backend the tests ran on and no other:
/// a name is a key exactly when some test names that backend, and no key
/// repeats.
pub proof fn lemma_summary_keys_are_backends(entries: Seq<(String, (usize, usize))>, ts: Seq<TestRecord>, b: Seq<char>)
    requires
        is_summary_of(entries, ts),
    ensures
        (exists|i: int| 0 <= i < entries.len() && #[trigger] entries[i].0@ == b) == has_backend(ts, b),
        forall|i: int, j: int| 0 <= i < j < entries.len() ==> #[trigger] entries[i].0@ != #[trigger] entries[j].0@,
{
    if has_backend(ts, b) {
        let j = choose|j: int| 0 <= j < ts.len() && #[trigger] ts[j].backend@ == b;
        assert(exists|i: int| 0 <= i < entries.len() && #[trigger] entries[i].0@ == ts[j].backend@);
    }
    assert forall|i: int, j: int| 0 <= i < j < entries.len() implies #[trigger] entries[i].0@ != #[trigger] entries[j].0@ by {
        crate::text::lemma_seq_lt_irreflexive(entries[i].0@);
    }
}

} // verus!
