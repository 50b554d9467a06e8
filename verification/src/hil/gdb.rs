//! The part of the GDB Remote Serial Protocol both backends speak to read and
//! write target memory: packet framing, the request payloads, a byte-at-a-time
//! packet reader, and the interpretation of replies. Malformed replies become
//! `HilError::Protocol`, never a panic. The transport (a TCP stream to QEMU's
//! stub or OpenOCD's gdbserver) is the caller's.

use vstd::prelude::*;
use vstd::string::*;
use crate::hil::HilError;
use crate::ledger::{hex_digit, hex_digit_str, hex_string};
use crate::text::owned;

verus! {

/// The packet checksum: the sum of the payload bytes modulo 256.
pub open spec fn checksum_spec(s: Seq<u8>) -> nat
    decreases s.len(),
{
    if s.len() == 0 {
        0
    } else {
        ((checksum_spec(s.drop_last()) + s.last()) % 256) as nat
    }
}

/// The ASCII code of the lowercase hexadecimal digit `d`.
pub open spec fn hex_byte(d: nat) -> u8 {
    if d < 10 {
        (48 + d) as u8
    } else {
        (87 + d) as u8
    }
}

/// `$<payload>#<checksum>`, the checksum as two lowercase hex digits.
pub open spec fn framed_spec(p: Seq<u8>) -> Seq<u8> {
    seq![36u8] + p + seq![35u8, hex_byte(checksum_spec(p) / 16), hex_byte(checksum_spec(p) % 16)]
}

fn hex_byte_of(d: u8) -> (b: u8)
    requires
        d < 16,
    ensures
        b == hex_byte(d as nat),
{
    if d < 10 {
        48 + d
    } else {
        87 + d
    }
}

/// The checksum of `p`.
pub fn checksum(p: &[u8]) -> (c: u8)
    ensures
        c as nat == checksum_spec(p@),
{
    let mut acc: u8 = 0;
    let mut i: usize = 0;
    while i < p.len()
        invariant
            0 <= i <= p@.len(),
            acc as nat == checksum_spec(p@.take(i as int)),
        decreases p@.len() - i,
    {
        assert(p@.take(i + 1).drop_last() =~= p@.take(i as int));
        acc = ((acc as u16 + p[i] as u16) % 256) as u8;
        i += 1;
    }
    assert(p@.take(p@.len() as int) =~= p@);
    acc
}

/// The bytes sent for `payload`: `$`, the payload, `#` and its checksum.
pub fn frame_packet(payload: &str) -> (r: Vec<u8>)
    ensures
        r@ == framed_spec(payload.spec_bytes()),
{
    let p = payload.as_bytes();
    let cs = checksum(p);
    let mut r: Vec<u8> = Vec::new();
    r.push(36);
    let mut i: usize = 0;
    while i < p.len()
        invariant
            0 <= i <= p@.len(),
            r@ == seq![36u8] + p@.take(i as int),
        decreases p@.len() - i,
    {
        r.push(p[i]);
        assert(p@.take(i + 1) =~= p@.take(i as int).push(p@[i as int]));
        i += 1;
    }
    assert(p@.take(p@.len() as int) =~= p@);
    r.push(35);
    r.push(hex_byte_of(cs / 16));
    r.push(hex_byte_of(cs % 16));
    assert(r@ =~= framed_spec(p@));
    r
}

/// `n` in lowercase hexadecimal, without leading zeros (as `{:x}` renders it).
pub open spec fn hex_digits(n: nat) -> Seq<char>
    decreases n,
{
    if n < 16 {
        seq![hex_digit(n)]
    } else {
        hex_digits(n / 16).push(hex_digit(n % 16))
    }
}

/// Render `n` in lowercase hexadecimal.
pub fn u32_to_hex(n: u32) -> (r: String)
    ensures
        r@ == hex_digits(n as nat),
    decreases n,
{
    if n < 16 {
        String::from_str(hex_digit_str(n as u8))
    } else {
        let mut s = u32_to_hex(n / 16);
        s.append(hex_digit_str((n % 16) as u8));
        s
    }
}

/// The payload of a memory read: `m<addr>,<len>` in hexadecimal.
pub open spec fn read_payload_spec(addr: u32, len: u32) -> Seq<char> {
    "m"@ + hex_digits(addr as nat) + ","@ + hex_digits(len as nat)
}

/// The request for `len` bytes of target memory at `addr`.
pub fn read_memory_payload(addr: u32, len: u32) -> (r: String)
    ensures
        r@ == read_payload_spec(addr, len),
{
    let mut r = String::from_str("m");
    r.append(u32_to_hex(addr).as_str());
    r.append(",");
    r.append(u32_to_hex(len).as_str());
    r
}

/// The payload of a memory write: `M<addr>,<len>:<bytes as hex pairs>`.
pub open spec fn write_payload_spec(addr: u32, bytes: Seq<u8>) -> Seq<char> {
    "M"@ + hex_digits(addr as nat) + ","@ + hex_digits(bytes.len()) + ":"@ + hex_string(bytes)
}

/// The request writing `bytes` to target memory at `addr`.
pub fn write_memory_payload(addr: u32, bytes: &[u8]) -> (r: String)
    requires
        bytes@.len() <= u32::MAX,
    ensures
        r@ == write_payload_spec(addr, bytes@),
{
    let mut r = String::from_str("M");
    r.append(u32_to_hex(addr).as_str());
    r.append(",");
    r.append(u32_to_hex(bytes.len() as u32).as_str());
    r.append(":");
    let ghost head = r@;
    let mut i: usize = 0;
    assert(bytes@.take(0) =~= Seq::<u8>::empty());
    while i < bytes.len()
        invariant
            0 <= i <= bytes@.len(),
            r@ == head + hex_string(bytes@.take(i as int)),
        decreases bytes@.len() - i,
    {
        let b = bytes[i];
        r.append(hex_digit_str(b / 16));
        r.append(hex_digit_str(b % 16));
        assert(bytes@.take(i + 1).drop_last() =~= bytes@.take(i as int));
        i += 1;
    }
    assert(bytes@.take(bytes@.len() as int) =~= bytes@);
    r
}

/// The value of the hexadecimal digit whose ASCII code is `b`, either case.
pub open spec fn hex_value(b: u8) -> Option<u8> {
    if 48 <= b <= 57 {
        Some((b - 48) as u8)
    } else if 97 <= b <= 102 {
        Some((b - 87) as u8)
    } else if 65 <= b <= 70 {
        Some((b - 55) as u8)
    } else {
        None
    }
}

/// Whether every byte of `s` is a hexadecimal digit.
pub open spec fn all_hex(s: Seq<u8>) -> bool {
    forall|i: int| 0 <= i < s.len() ==> (#[trigger] hex_value(s[i])) is Some
}

/// The bytes written as hex pairs in `s` (meaningful when `all_hex(s)` and
/// `s` has even length).
pub open spec fn decoded_pairs(s: Seq<u8>) -> Seq<u8> {
    Seq::new(s.len() / 2, |k: int| (hex_value(s[2 * k])->0 * 16 + hex_value(s[2 * k + 1])->0) as u8)
}

/// What a string of hex pairs decodes to: `None` for an odd length or any
/// byte that is not a hex digit.
pub open spec fn decode_hex_spec(s: Seq<u8>) -> Option<Seq<u8>> {
    if s.len() % 2 == 0 && all_hex(s) {
        Some(decoded_pairs(s))
    } else {
        None
    }
}

fn hex_value_of(b: u8) -> (r: Option<u8>)
    ensures
        r == hex_value(b),
{
    if 48 <= b && b <= 57 {
        Some(b - 48)
    } else if 97 <= b && b <= 102 {
        Some(b - 87)
    } else if 65 <= b && b <= 70 {
        Some(b - 55)
    } else {
        None
    }
}

/// Decode a string of hex pairs into bytes.
pub fn decode_hex(s: &str) -> (r: Option<Vec<u8>>)
    ensures
        match decode_hex_spec(s.spec_bytes()) {
            Some(bs) => r matches Some(v) && v@ == bs,
            None => r is None,
        },
{
    let b = s.as_bytes();
    let n = b.len();
    if n % 2 != 0 {
        return None;
    }
    let mut out: Vec<u8> = Vec::new();
    let mut k: usize = 0;
    while k < n / 2
        invariant
            n == b@.len(),
            b@ == s.spec_bytes(),
            n % 2 == 0,
            0 <= k <= n / 2,
            out@.len() == k,
            forall|j: int| 0 <= j < 2 * k ==> (#[trigger] hex_value(b@[j])) is Some,
            forall|j: int| 0 <= j < k ==> #[trigger] out@[j] == (hex_value(b@[2 * j])->0 * 16 + hex_value(b@[2 * j + 1])->0) as u8,
        decreases n / 2 - k,
    {
        let hi = match hex_value_of(b[2 * k]) {
            Some(v) => v,
            None => {
                assert(hex_value(b@[2 * k as int]) is None);
                assert(!all_hex(b@));
                return None;
            },
        };
        let lo = match hex_value_of(b[2 * k + 1]) {
            Some(v) => v,
            None => {
                assert(hex_value(b@[2 * k + 1]) is None);
                assert(!all_hex(b@));
                return None;
            },
        };
        out.push(hi * 16 + lo);
        k += 1;
    }
    assert(all_hex(b@));
    assert(out@ =~= decoded_pairs(b@));
    Some(out)
}

/// What a memory-read reply means: an `E..` reply is the target's error,
/// anything else must be hex pairs.
pub fn memory_reply(reply: &str) -> (r: Result<Vec<u8>, HilError>)
    ensures
        reply@.len() > 0 && reply@[0] == 'E' ==> (r matches Err(HilError::Protocol(m)) && m@ == "target returned error: "@ + reply@),
        !(reply@.len() > 0 && reply@[0] == 'E') ==> match decode_hex_spec(reply.spec_bytes()) {
            Some(bs) => r matches Ok(v) && v@ == bs,
            None => r matches Err(HilError::Protocol(m)) && m@ == "non-hex memory reply: "@ + reply@,
        },
{
    let n = reply.unicode_len();
    if n > 0 && reply.get_char(0) == 'E' {
        let mut m = String::from_str("target returned error: ");
        m.append(reply);
        return Err(HilError::Protocol(m));
    }
    match decode_hex(reply) {
        Some(v) => Ok(v),
        None => {
            let mut m = String::from_str("non-hex memory reply: ");
            m.append(reply);
            Err(HilError::Protocol(m))
        },
    }
}

/// What a memory-write reply means: only `OK` accepts the write.
pub fn write_reply(reply: &str) -> (r: Result<(), HilError>)
    ensures
        reply@ == "OK"@ ==> r is Ok,
        reply@ != "OK"@ ==> (r matches Err(HilError::Protocol(m)) && m@ == "memory write rejected by target: "@ + reply@),
{
    if crate::text::str_eq(reply, "OK") {
        Ok(())
    } else {
        let mut m = String::from_str("memory write rejected by target: ");
        m.append(reply);
        Err(HilError::Protocol(m))
    }
}

/// How `{:?}` renders a character: quoted, with `char::escape_debug` escapes.
pub uninterp spec fn char_debug_spec(c: char) -> Seq<char>;

/// The `Debug` rendering of `c` (as `format!("{:?}", c)` gives it).
///
/// Calls std's `Debug` for `char`; the contract only names the result as a
/// function of `c` — the escaping rules are std's.
#[verifier::external_body]
fn char_debug(c: char) -> (r: String)
    ensures
        r@ == char_debug_spec(c),
{
    format!("{:?}", c)
}

/// What the byte that answers a sent packet means: `+` acknowledges it.
pub fn ack_reply(b: u8) -> (r: Result<(), HilError>)
    ensures
        b == 43u8 ==> r is Ok,
        b != 43u8 ==> (r matches Err(HilError::Protocol(m)) && m@ == "expected '+' ack, got "@ + char_debug_spec(b as char)),
{
    if b == 43 {
        Ok(())
    } else {
        let mut m = String::from_str("expected '+' ack, got ");
        m.append(char_debug(b as char).as_str());
        Err(HilError::Protocol(m))
    }
}

/// Where the packet reader stands: before a packet's `$`, inside its body,
/// or on the first or the second checksum digit after its `#`.
#[derive(Debug, Clone, Copy, PartialEq, Eq, Structural)]
pub enum Phase {
    Seeking,
    Body,
    Checksum,
    LastChecksum,
}

/// One byte through the reader: the next phase, the body so far, and the
/// body of a packet that this byte completed. The checksum digits are read
/// and not checked: a corrupt body fails downstream when it does not parse.
pub open spec fn step_spec(phase: Phase, body: Seq<u8>, b: u8) -> (Phase, Seq<u8>, Option<Seq<u8>>) {
    match phase {
        Phase::Seeking => if b == 36u8 {
            (Phase::Body, Seq::empty(), None)
        } else {
            (Phase::Seeking, body, None)
        },
        Phase::Body => if b == 35u8 {
            (Phase::Checksum, body, None)
        } else {
            (Phase::Body, body.push(b), None)
        },
        Phase::Checksum => (Phase::LastChecksum, body, None),
        Phase::LastChecksum => (Phase::Seeking, Seq::empty(), Some(body)),
    }
}

/// The first packet body that feeding `bytes` completes.
pub open spec fn feed_spec(phase: Phase, body: Seq<u8>, bytes: Seq<u8>) -> Option<Seq<u8>>
    decreases bytes.len(),
{
    if bytes.len() == 0 {
        None
    } else {
        let (p2, b2, done) = step_spec(phase, body, bytes[0]);
        match done {
            Some(d) => Some(d),
            None => feed_spec(p2, b2, bytes.drop_first()),
        }
    }
}

/// Reassembles packets from the bytes a stub sends, one byte at a time.
#[derive(Debug, Clone, PartialEq, Eq)]
pub struct PacketReader {
    pub phase: Phase,
    pub body: Vec<u8>,
}

impl PacketReader {
    /// A reader waiting for a packet.
    pub fn new() -> (r: PacketReader)
        ensures
            r.phase == Phase::Seeking,
            r.body@.len() == 0,
    {
        PacketReader { phase: Phase::Seeking, body: Vec::new() }
    }

    /// Take one byte; the packet body when this byte completes a packet.
    pub fn push(&mut self, b: u8) -> (r: Option<Vec<u8>>)
        ensures
            final(self).phase == step_spec(old(self).phase, old(self).body@, b).0,
            final(self).body@ == step_spec(old(self).phase, old(self).body@, b).1,
            match step_spec(old(self).phase, old(self).body@, b).2 {
                Some(d) => r matches Some(v) && v@ == d,
                None => r is None,
            },
    {
        match self.phase {
            Phase::Seeking => {
                if b == 36 {
                    self.phase = Phase::Body;
                    self.body = Vec::new();
                }
                None
            },
            Phase::Body => {
                if b == 35 {
                    self.phase = Phase::Checksum;
                } else {
                    self.body.push(b);
                }
                None
            },
            Phase::Checksum => {
                self.phase = Phase::LastChecksum;
                None
            },
            Phase::LastChecksum => {
                self.phase = Phase::Seeking;
                let mut done: Vec<u8> = Vec::new();
                std::mem::swap(&mut done, &mut self.body);
                Some(done)
            },
        }
    }
}

/// Inside a body, bytes without a `#` only grow it.
proof fn lemma_feed_body(acc: Seq<u8>, p: Seq<u8>, tail: Seq<u8>)
    requires
        forall|i: int| 0 <= i < p.len() ==> p[i] != 35u8,
    ensures
        feed_spec(Phase::Body, acc, p + tail) == feed_spec(Phase::Body, acc + p, tail),
    decreases p.len(),
{
    if p.len() > 0 {
        assert((p + tail)[0] == p[0]);
        assert((p + tail).drop_first() =~= p.drop_first() + tail);
        assert(acc.push(p[0]) + p.drop_first() =~= acc + p);
        lemma_feed_body(acc.push(p[0]), p.drop_first(), tail);
    } else {
        assert(p + tail =~= tail);
        assert(acc + p =~= acc);
    }
}

/// Reading back a framed packet gives its payload: the reader, waiting for
/// a packet, completes exactly the payload on the last byte of its frame,
/// whatever the checksum digits are.
pub proof fn lemma_framed_packet_reads_back(p: Seq<u8>)
    requires
        forall|i: int| 0 <= i < p.len() ==> p[i] != 35u8,
    ensures
        feed_spec(Phase::Seeking, Seq::empty(), framed_spec(p)) == Some(p),
{
    let f = framed_spec(p);
    let trailer = seq![35u8, hex_byte(checksum_spec(p) / 16), hex_byte(checksum_spec(p) % 16)];
    assert(f[0] == 36u8);
    assert(f.drop_first() =~= p + trailer);
    assert(feed_spec(Phase::Seeking, Seq::empty(), f) == feed_spec(Phase::Body, Seq::empty(), p + trailer));
    lemma_feed_body(Seq::empty(), p, trailer);
    assert(Seq::<u8>::empty() + p =~= p);
    let t1 = trailer.drop_first();
    let t2 = t1.drop_first();
    assert(feed_spec(Phase::Body, p, trailer) == feed_spec(Phase::Checksum, p, t1));
    assert(feed_spec(Phase::Checksum, p, t1) == feed_spec(Phase::LastChecksum, p, t2));
    assert(t2.len() == 1);
    assert(feed_spec(Phase::LastChecksum, p, t2) == Some(p));
}

/// `String::from_utf8`: the bytes as text exactly when they are valid UTF-8,
/// as std documents it.
#[verifier::external_body]
fn utf8_decode(bytes: Vec<u8>) -> (r: Option<String>)
    ensures
        r is Some <==> vstd::utf8::valid_utf8(bytes@),
        r is Some ==> r->0@ == vstd::utf8::decode_utf8(bytes@),
{
    String::from_utf8(bytes).ok()
}

/// A packet body as the reply text, or a protocol error when it is not
/// UTF-8.
pub fn packet_text(body: Vec<u8>) -> (r: Result<String, HilError>)
    ensures
        vstd::utf8::valid_utf8(body@) ==> (r matches Ok(s) && s@ == vstd::utf8::decode_utf8(body@)),
        !vstd::utf8::valid_utf8(body@) ==> (r matches Err(HilError::Protocol(m)) && m@ == "non-utf8 packet body"@),
{
    match utf8_decode(body) {
        Some(s) => Ok(s),
        None => Err(HilError::Protocol(owned("non-utf8 packet body"))),
    }
}

} // verus!
