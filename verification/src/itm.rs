//! A streaming ARM CoreSight ITM/SWO packet decoder (ARMv7-M ARM, DDI 0403E,
//! §C1.10).
//!
//! [`Decoder::decode`] is fed arbitrary byte chunks; packets may span chunk
//! boundaries and incomplete packets are buffered until the rest arrives.
//! Unrecognized header bytes are skipped to resynchronize, and the internal
//! buffer is capped at [`MAX_BUFFER`] bytes so a stuck stream cannot grow
//! memory without bound.

use vstd::prelude::*;

verus! {

/// A decoded ITM/SWO packet.
#[derive(Debug, Clone, PartialEq, Eq)]
pub enum Packet {
    /// Software-source (SWIT) packet written by firmware to a stimulus `port`
    /// (0–31). `data` is 1, 2 or 4 bytes.
    Instrumentation { port: u8, data: Vec<u8> },
    /// Hardware-source (DWT) packet with a discriminator id and payload.
    Hardware { discriminator: u8, data: Vec<u8> },
    /// Trace overflow: the device's ITM FIFO filled and data was lost.
    Overflow,
    /// Synchronization packet — a run of zero bits used to align the stream.
    Synchronization,
    /// Local timestamp (delta time since the previous timestamp).
    LocalTimestamp { tc: u8, ts: u32 },
    /// Global (absolute) timestamp.
    GlobalTimestamp { ts: u64 },
    /// Extension packet (e.g. stimulus-port page); reported, not interpreted.
    Extension { data: Vec<u8> },
}

/// Upper bound on the internal buffer; past it the buffer is dropped and the
/// stream realigns on the next synchronization packet.
pub const MAX_BUFFER: usize = 1048576;

/// The most payload bytes a continuation-style protocol packet may carry.
pub const MAX_CONTINUATION: usize = 4;

/// The mathematical value of a packet: a kind tag (0 instrumentation,
/// 1 hardware, 2 overflow, 3 synchronization, 4 local timestamp, 5 global
/// timestamp, 6 extension), two numeric fields and a byte payload.
pub type PacketModel = (u8, u64, u64, Seq<u8>);

pub open spec fn packet_model(p: Packet) -> PacketModel {
    match p {
        Packet::Instrumentation { port, data } => (0u8, port as u64, 0u64, data@),
        Packet::Hardware { discriminator, data } => (1u8, discriminator as u64, 0u64, data@),
        Packet::Overflow => (2u8, 0u64, 0u64, Seq::empty()),
        Packet::Synchronization => (3u8, 0u64, 0u64, Seq::empty()),
        Packet::LocalTimestamp { tc, ts } => (4u8, tc as u64, ts as u64, Seq::empty()),
        Packet::GlobalTimestamp { ts } => (5u8, ts, 0u64, Seq::empty()),
        Packet::Extension { data } => (6u8, 0u64, 0u64, data@),
    }
}

pub open spec fn packets_model(ps: Seq<Packet>) -> Seq<PacketModel> {
    ps.map_values(|p: Packet| packet_model(p))
}

/// Payload size of a source packet from the header's size code.
pub open spec fn source_size(code: u8) -> nat {
    if code == 1 {
        1
    } else if code == 2 {
        2
    } else {
        4
    }
}

/// The index of the first non-zero byte at or after `k` (or the length).
pub open spec fn zeros_from(s: Seq<u8>, k: nat) -> nat
    decreases s.len() - k,
{
    if k < s.len() && s[k as int] == 0 {
        zeros_from(s, k + 1)
    } else {
        k
    }
}

/// The index of the last payload byte of a continuation packet whose header
/// is `s[0]`: the first of `s[1..=4]` with bit 7 clear, or index 4; `None`
/// when the bytes up to it have not arrived yet.
pub open spec fn cont_end(s: Seq<u8>, k: nat) -> Option<nat>
    decreases 5 - k,
{
    if k >= s.len() || k > 4 {
        None
    } else if s[k as int] & 0x80 == 0 || k >= 4 {
        Some(k)
    } else {
        cont_end(s, k + 1)
    }
}

/// Little-endian 7-bit groups folded into an integer.
pub open spec fn fold_le7_spec(p: Seq<u8>) -> u64
    decreases p.len(),
{
    if p.len() == 0 {
        0
    } else {
        fold_le7_spec(p.drop_last()) | ((p.last() & 0x7F) as u64) << (7 * (p.len() - 1)) as u64
    }
}

/// What a continuation-style protocol packet of kind `kind` (4 local
/// timestamp with continuation `tc`, 5 global timestamp, 6 extension) yields
/// for `payload`.
pub open spec fn continuation_packet(kind: u8, tc: u8, payload: Seq<u8>) -> PacketModel {
    if kind == 4 {
        (4u8, tc as u64, (fold_le7_spec(payload) as u32) as u64, Seq::empty())
    } else if kind == 5 {
        (5u8, fold_le7_spec(payload), 0u64, Seq::empty())
    } else {
        (6u8, 0u64, 0u64, payload)
    }
}

pub open spec fn continuation_step(s: Seq<u8>, kind: u8, tc: u8) -> Option<(nat, Option<PacketModel>)> {
    if s[0] & 0x80 == 0 {
        Some((1, Some(continuation_packet(kind, tc, Seq::empty()))))
    } else {
        match cont_end(s, 1) {
            Some(k) => Some((k + 1, Some(continuation_packet(kind, tc, s.subrange(1, k as int + 1))))),
            None => None,
        }
    }
}

/// One parsing step at the front of `s`: `None` when more bytes are needed,
/// otherwise the bytes consumed and the packet produced, if any.
pub open spec fn step(s: Seq<u8>) -> Option<(nat, Option<PacketModel>)> {
    if s.len() == 0 {
        None
    } else {
        let h = s[0];
        let code = h & 3;
        if code != 0 {
            let total = 1 + source_size(code);
            if s.len() < total {
                None
            } else {
                let data = s.subrange(1, total as int);
                let id = h >> 3;
                if h & 4 == 0 {
                    Some((total, Some((0u8, id as u64, 0u64, data))))
                } else {
                    Some((total, Some((1u8, id as u64, 0u64, data))))
                }
            }
        } else if h == 0 {
            let z = zeros_from(s, 0);
            if z == s.len() {
                None
            } else if s[z as int] == 0x80 {
                Some((z + 1, Some((3u8, 0u64, 0u64, Seq::empty()))))
            } else {
                Some((z, Some((3u8, 0u64, 0u64, Seq::empty()))))
            }
        } else if h == 0x70 {
            Some((1, Some((2u8, 0u64, 0u64, Seq::empty()))))
        } else if h & 0x8F == 0 {
            Some((1, Some((4u8, 0u64, ((h >> 4) & 7) as u64, Seq::empty()))))
        } else if h & 0xCF == 0xC0 {
            continuation_step(s, 4, (h >> 4) & 3)
        } else if h == 0x94 || h == 0xB4 {
            continuation_step(s, 5, 0)
        } else if h & 0x0B == 0x08 {
            continuation_step(s, 6, 0)
        } else {
            Some((1, None))
        }
    }
}

pub open spec fn opt_seq(p: Option<PacketModel>) -> Seq<PacketModel> {
    match p {
        Some(x) => seq![x],
        None => Seq::empty(),
    }
}

/// Decode as much of `s` as possible: the packets produced and the number of
/// bytes consumed (everything after is an incomplete packet).
pub open spec fn decode_spec(s: Seq<u8>) -> (Seq<PacketModel>, nat)
    decreases s.len(),
{
    match step(s) {
        Some((n, p)) => if 0 < n && n <= s.len() {
            let rest = decode_spec(s.skip(n as int));
            (opt_seq(p) + rest.0, n + rest.1)
        } else {
            (Seq::empty(), 0)
        },
        None => (Seq::empty(), 0),
    }
}

/// The buffer a decoder keeps after decoding `input`: the undecoded tail,
/// or nothing when that tail exceeds [`MAX_BUFFER`].
pub open spec fn next_buffer(input: Seq<u8>) -> Seq<u8> {
    let rest = input.skip(decode_spec(input).1 as int);
    if rest.len() > MAX_BUFFER {
        Seq::empty()
    } else {
        rest
    }
}

/// One `decode` call on a decoder holding `buffer`: the packets returned and
/// the buffer kept.
pub open spec fn decode_call(buffer: Seq<u8>, bytes: Seq<u8>) -> (Seq<PacketModel>, Seq<u8>) {
    (decode_spec(buffer + bytes).0, next_buffer(buffer + bytes))
}

proof fn lemma_zeros_from(s: Seq<u8>, k: nat)
    requires
        k <= s.len(),
    ensures
        k <= zeros_from(s, k) <= s.len(),
        forall|j: int| k <= j < zeros_from(s, k) ==> s[j] == 0,
        zeros_from(s, k) < s.len() ==> s[zeros_from(s, k) as int] != 0,
    decreases s.len() - k,
{
    if k < s.len() && s[k as int] == 0 {
        lemma_zeros_from(s, k + 1);
    }
}

proof fn lemma_zeros_from_append(s: Seq<u8>, t: Seq<u8>, k: nat)
    requires
        k <= s.len(),
        zeros_from(s, k) < s.len(),
    ensures
        zeros_from(s + t, k) == zeros_from(s, k),
    decreases s.len() - k,
{
    assert((s + t)[k as int] == s[k as int]);
    if s[k as int] == 0 {
        lemma_zeros_from_append(s, t, k + 1);
    }
}

proof fn lemma_cont_end(s: Seq<u8>, k: nat)
    requires
        1 <= k,
    ensures
        cont_end(s, k) matches Some(e) ==> k <= e <= 4 && e < s.len(),
    decreases 5 - k,
{
    if k >= s.len() || k > 4 {
    } else if s[k as int] & 0x80 == 0 || k >= 4 {
    } else {
        lemma_cont_end(s, k + 1);
    }
}

proof fn lemma_cont_end_append(s: Seq<u8>, t: Seq<u8>, k: nat)
    requires
        cont_end(s, k) is Some,
    ensures
        cont_end(s + t, k) == cont_end(s, k),
    decreases 5 - k,
{
    if k >= s.len() || k > 4 {
    } else {
        assert((s + t)[k as int] == s[k as int]);
        if s[k as int] & 0x80 == 0 || k >= 4 {
        } else {
            lemma_cont_end_append(s, t, k + 1);
        }
    }
}

/// A parsing step never consumes nothing and never more than it saw.
proof fn lemma_step_bounds(s: Seq<u8>)
    ensures
        step(s) matches Some((n, _)) ==> 0 < n <= s.len(),
{
    if s.len() > 0 {
        let h = s[0];
        if h & 3 == 0 && h == 0 {
            lemma_zeros_from(s, 0);
        }
        lemma_cont_end(s, 1);
    }
}

/// A completed step is not changed by bytes that arrive after it.
proof fn lemma_step_prefix_stable(s: Seq<u8>, t: Seq<u8>)
    requires
        step(s) is Some,
    ensures
        step(s + t) == step(s),
{
    lemma_step_bounds(s);
    let st = s + t;
    assert(st[0] == s[0]);
    let h = s[0];
    if h & 3 != 0 {
        let total = 1 + source_size(h & 3);
        assert(st.subrange(1, total as int) =~= s.subrange(1, total as int));
    } else if h == 0 {
        lemma_zeros_from(s, 0);
        lemma_zeros_from_append(s, t, 0);
        assert(st[zeros_from(s, 0) as int] == s[zeros_from(s, 0) as int]);
    } else if h == 0x70 {
    } else if h & 0x8F == 0 {
    } else if (h & 0xCF == 0xC0) || (h == 0x94 || h == 0xB4) || (h & 0x0B == 0x08) {
        if s[0] & 0x80 != 0 {
            lemma_cont_end(s, 1);
            lemma_cont_end_append(s, t, 1);
            let e = cont_end(s, 1)->0;
            assert(st.subrange(1, e as int + 1) =~= s.subrange(1, e as int + 1));
        }
    }
}

/// Decoding `s ++ t` yields what decoding `s` yields, followed by what
/// decoding the undecoded tail of `s` followed by `t` yields.
pub proof fn lemma_decode_append(s: Seq<u8>, t: Seq<u8>)
    ensures
        decode_spec(s + t).0 == decode_spec(s).0 + decode_spec(s.skip(decode_spec(s).1 as int) + t).0,
        decode_spec(s + t).1 == decode_spec(s).1 + decode_spec(s.skip(decode_spec(s).1 as int) + t).1,
        decode_spec(s).1 <= s.len(),
    decreases s.len(),
{
    lemma_step_bounds(s);
    match step(s) {
        Some((n, p)) => {
            lemma_step_prefix_stable(s, t);
            lemma_step_bounds(s + t);
            let r = s.skip(n as int);
            assert((s + t).skip(n as int) =~= r + t);
            lemma_decode_append(r, t);
            let c = decode_spec(r).1;
            assert(r.skip(c as int) =~= s.skip((n + c) as int));
            assert(decode_spec(s + t).0 =~= decode_spec(s).0 + decode_spec(s.skip(decode_spec(s).1 as int) + t).0);
        },
        None => {
            assert(s.skip(0) =~= s);
        },
    }
}

/// Chunking law: decoding `a` and then `b` returns the same packets, and
/// leaves the same buffer, as decoding `a ++ b` in one call — provided the
/// first call did not hit the [`MAX_BUFFER`] safety valve.
pub proof fn lemma_chunking(buffer: Seq<u8>, a: Seq<u8>, b: Seq<u8>)
    requires
        (buffer + a).skip(decode_spec(buffer + a).1 as int).len() <= MAX_BUFFER,
    ensures
        decode_call(buffer, a).0 + decode_call(decode_call(buffer, a).1, b).0 == decode_call(buffer, a + b).0,
        decode_call(decode_call(buffer, a).1, b).1 == decode_call(buffer, a + b).1,
{
    let s = buffer + a;
    lemma_decode_append(s, b);
    lemma_decode_append(s.skip(decode_spec(s).1 as int) + b, Seq::empty());
    assert(buffer + (a + b) =~= s + b);
    let c1 = decode_spec(s).1;
    let r = s.skip(c1 as int);
    let c2 = decode_spec(r + b).1;
    assert((r + b) + Seq::<u8>::empty() =~= r + b);
    assert((s + b).skip(c1 as int) =~= r + b);
    assert((s + b).skip((c1 + c2) as int) =~= (r + b).skip(c2 as int));
}

/// The result of parsing one packet from the front of the buffer.
enum ExecStep {
    NeedMore,
    Consumed { consumed: usize, packet: Option<Packet> },
}

spec fn exec_step_model(e: ExecStep) -> Option<(nat, Option<PacketModel>)> {
    match e {
        ExecStep::NeedMore => None,
        ExecStep::Consumed { consumed, packet } => Some((
            consumed as nat,
            match packet {
                Some(p) => Some(packet_model(p)),
                None => None,
            },
        )),
    }
}

fn fold_le7(payload: &Vec<u8>) -> (v: u64)
    requires
        payload@.len() <= 4,
    ensures
        v == fold_le7_spec(payload@),
{
    let mut value: u64 = 0;
    let mut k: usize = 0;
    while k < payload.len()
        invariant
            payload@.len() <= 4,
            0 <= k <= payload@.len(),
            value == fold_le7_spec(payload@.take(k as int)),
        decreases payload@.len() - k,
    {
        let b = payload[k];
        assert(payload@.take(k + 1).drop_last() =~= payload@.take(k as int));
        value = value | ((b & 0x7F) as u64) << (7 * k as u64);
        k += 1;
    }
    assert(payload@.take(payload@.len() as int) =~= payload@);
    value
}

fn copy_range(buf: &Vec<u8>, from: usize, to: usize) -> (r: Vec<u8>)
    requires
        from <= to <= buf@.len(),
    ensures
        r@ == buf@.subrange(from as int, to as int),
{
    let mut r: Vec<u8> = Vec::new();
    let mut i = from;
    while i < to
        invariant
            from <= i <= to,
            to <= buf@.len(),
            r@ == buf@.subrange(from as int, i as int),
        decreases to - i,
    {
        r.push(buf[i]);
        assert(buf@.subrange(from as int, i + 1) =~= buf@.subrange(from as int, i as int).push(buf@[i as int]));
        i += 1;
    }
    r
}

/// Consume a continuation-style protocol packet starting at `pos`.
fn continuation(buf: &Vec<u8>, pos: usize, kind: u8, tc: u8) -> (r: ExecStep)
    requires
        pos < buf@.len(),
        kind == 4 || kind == 5 || kind == 6,
    ensures
        exec_step_model(r) == continuation_step(buf@.skip(pos as int), kind, tc),
{
    let ghost s = buf@.skip(pos as int);
    let empty: Vec<u8> = Vec::new();
    if buf[pos] & 0x80 == 0 {
        let p = make_continuation_packet(kind, tc, empty);
        return ExecStep::Consumed { consumed: 1, packet: Some(p) };
    }
    let mut k: usize = 1;
    loop
        invariant
            1 <= k <= 4,
            pos < buf@.len(),
            kind == 4 || kind == 5 || kind == 6,
            s == buf@.skip(pos as int),
            s[0] == buf@[pos as int],
            buf@[pos as int] & 0x80 != 0,
            cont_end(s, 1) == cont_end(s, k as nat),
        decreases 5 - k,
    {
        if k >= buf.len() - pos {
            return ExecStep::NeedMore;
        }
        let b = buf[pos + k];
        assert(s[k as int] == b);
        if b & 0x80 == 0 || k >= MAX_CONTINUATION {
            let payload = copy_range(buf, pos + 1, pos + k + 1);
            assert(payload@ =~= s.subrange(1, k as int + 1));
            let p = make_continuation_packet(kind, tc, payload);
            return ExecStep::Consumed { consumed: k + 1, packet: Some(p) };
        }
        k += 1;
    }
}

fn make_continuation_packet(kind: u8, tc: u8, payload: Vec<u8>) -> (p: Packet)
    requires
        payload@.len() <= 4,
        kind == 4 || kind == 5 || kind == 6,
    ensures
        packet_model(p) == continuation_packet(kind, tc, payload@),
{
    if kind == 4 {
        let v = fold_le7(&payload);
        Packet::LocalTimestamp { tc, ts: v as u32 }
    } else if kind == 5 {
        let v = fold_le7(&payload);
        Packet::GlobalTimestamp { ts: v }
    } else {
        Packet::Extension { data: payload }
    }
}

/// Synchronization: a run of `0x00` bytes terminated by `0x80`; a run ended
/// by anything else is consumed as padding.
fn parse_sync(buf: &Vec<u8>, pos: usize) -> (r: ExecStep)
    requires
        pos < buf@.len(),
        buf@[pos as int] == 0,
    ensures
        exec_step_model(r) == step(buf@.skip(pos as int)),
{
    let ghost s = buf@.skip(pos as int);
    assert(0u8 & 3u8 == 0) by (bit_vector);
    let mut z: usize = 0;
    while z < buf.len() - pos && buf[pos + z] == 0
        invariant
            pos <= buf@.len(),
            s == buf@.skip(pos as int),
            z <= s.len(),
            zeros_from(s, 0) == zeros_from(s, z as nat),
        decreases s.len() - z,
    {
        z += 1;
    }
    if z == buf.len() - pos {
        return ExecStep::NeedMore;
    }
    assert(s[z as int] == buf@[pos + z]);
    if buf[pos + z] == 0x80 {
        ExecStep::Consumed { consumed: z + 1, packet: Some(Packet::Synchronization) }
    } else {
        ExecStep::Consumed { consumed: z, packet: Some(Packet::Synchronization) }
    }
}

/// Try to parse a single packet from `buf[pos..]`.
fn parse_one(buf: &Vec<u8>, pos: usize) -> (r: ExecStep)
    requires
        pos <= buf@.len(),
    ensures
        exec_step_model(r) == step(buf@.skip(pos as int)),
{
    let ghost s = buf@.skip(pos as int);
    if pos >= buf.len() {
        return ExecStep::NeedMore;
    }
    let header = buf[pos];
    assert(s[0] == header);
    let size_code = header & 0b11;
    if size_code != 0 {
        let size: usize = if size_code == 1 {
            1
        } else if size_code == 2 {
            2
        } else {
            4
        };
        let total = 1 + size;
        if buf.len() - pos < total {
            return ExecStep::NeedMore;
        }
        let data = copy_range(buf, pos + 1, pos + total);
        assert(data@ =~= s.subrange(1, total as int));
        let id = header >> 3;
        let packet = if header & 0b100 == 0 {
            Packet::Instrumentation { port: id, data }
        } else {
            Packet::Hardware { discriminator: id, data }
        };
        return ExecStep::Consumed { consumed: total, packet: Some(packet) };
    }
    if header == 0x00 {
        parse_sync(buf, pos)
    } else if header == 0x70 {
        ExecStep::Consumed { consumed: 1, packet: Some(Packet::Overflow) }
    } else if header & 0b1000_1111 == 0 {
        ExecStep::Consumed {
            consumed: 1,
            packet: Some(Packet::LocalTimestamp { tc: 0, ts: ((header >> 4) & 0b111) as u32 }),
        }
    } else if header & 0b1100_1111 == 0b1100_0000 {
        continuation(buf, pos, 4, (header >> 4) & 0b11)
    } else if header == 0x94 || header == 0xB4 {
        continuation(buf, pos, 5, 0)
    } else if header & 0b0000_1011 == 0b0000_1000 {
        continuation(buf, pos, 6, 0)
    } else {
        ExecStep::Consumed { consumed: 1, packet: None }
    }
}

/// A streaming ITM/SWO decoder. Feed it bytes with [`Decoder::decode`].
#[derive(Debug, Default)]
pub struct Decoder {
    buffer: Vec<u8>,
}

impl View for Decoder {
    type V = Seq<u8>;

    /// The bytes of an incomplete packet held for the next call.
    closed spec fn view(&self) -> Seq<u8> {
        self.buffer@
    }
}

impl Decoder {
    /// A fresh decoder with an empty buffer.
    pub fn new() -> (d: Decoder)
        ensures
            d@ == Seq::<u8>::empty(),
    {
        Decoder { buffer: Vec::new() }
    }

    /// Feed a chunk of SWO bytes and return every complete packet it
    /// completes; bytes that form only part of a packet are kept for the next
    /// call.
    pub fn decode(&mut self, bytes: &[u8]) -> (packets: Vec<Packet>)
        ensures
            packets_model(packets@) == decode_call(old(self)@, bytes@).0,
            final(self)@ == decode_call(old(self)@, bytes@).1,
            final(self)@.len() <= MAX_BUFFER,
    {
        let ghost input = self.buffer@ + bytes@;
        self.buffer.extend_from_slice(bytes);
        assert(self.buffer@ =~= input);
        let mut packets: Vec<Packet> = Vec::new();
        let mut pos: usize = 0;
        assert(input.skip(0) =~= input);
        loop
            invariant
                self.buffer@ == input,
                pos <= input.len(),
                decode_spec(input).0 == packets_model(packets@) + decode_spec(input.skip(pos as int)).0,
                decode_spec(input).1 == pos + decode_spec(input.skip(pos as int)).1,
            ensures
                self.buffer@ == input,
                pos <= input.len(),
                decode_spec(input).0 == packets_model(packets@),
                decode_spec(input).1 == pos,
            decreases input.len() - pos,
        {
            let ghost s = input.skip(pos as int);
            proof {
                lemma_step_bounds(s);
            }
            let len = self.buffer.len();
            match parse_one(&self.buffer, pos) {
                ExecStep::NeedMore => {
                    break;
                },
                ExecStep::Consumed { consumed, packet } => {
                    assert(consumed <= s.len());
                    assert(pos + consumed <= len);
                    assert(s.skip(consumed as int) =~= input.skip(pos + consumed));
                    let ghost before = packets@;
                    match packet {
                        Some(p) => {
                            packets.push(p);
                            assert(packets_model(packets@) =~= packets_model(before) + seq![packet_model(p)]);
                        },
                        None => {},
                    }
                    assert(packets_model(packets@) + decode_spec(input.skip(pos + consumed)).0
                        =~= packets_model(before) + decode_spec(s).0);
                    pos = pos + consumed;
                },
            }
        }
        let rest = self.buffer.split_off(pos);
        assert(rest@ =~= input.skip(pos as int));
        if rest.len() > MAX_BUFFER {
            self.buffer = Vec::new();
        } else {
            self.buffer = rest;
        }
        packets
    }

    /// Discard any buffered partial packet (e.g. after a connection drop).
    pub fn reset(&mut self)
        ensures
            final(self)@ == Seq::<u8>::empty(),
    {
        self.buffer.clear();
    }
}


/// The number written as little-endian 7-bit groups: the low 7 bits of the
/// first byte, plus 128 times the number the remaining bytes write.
pub open spec fn le7_value(p: Seq<u8>) -> nat
    decreases p.len(),
{
    if p.len() == 0 {
        0
    } else {
        (p[0] & 0x7F) as nat + 128 * le7_value(p.drop_first())
    }
}

proof fn lemma_low7(x: u8)
    ensures
        (x & 0x7F) < 128,
        ((x & 0x7F) as u64) < 128,
{
    assert((x & 0x7F) < 128) by (bit_vector);
}

proof fn lemma_fold_le7_value(p: Seq<u8>)
    requires
        p.len() <= 4,
    ensures
        fold_le7_spec(p) == le7_value(p),
{
    reveal_with_fuel(fold_le7_spec, 5);
    reveal_with_fuel(le7_value, 5);
    let n = p.len();
    if n == 0 {
    } else {
        let a: u64 = (p[0] & 0x7F) as u64;
        lemma_low7(p[0]);
        let p1 = p.take(1);
        assert(p1.drop_last() =~= Seq::<u8>::empty());
        assert(fold_le7_spec(p1) == (0u64 | a << 0u64));
        assert((0u64 | a << 0u64) == a) by (bit_vector);
        if n == 1 {
            assert(p =~= p1);
            assert(p.drop_first() =~= Seq::<u8>::empty());
        } else {
            let b: u64 = (p[1] & 0x7F) as u64;
            lemma_low7(p[1]);
            let p2 = p.take(2);
            assert(p2.drop_last() =~= p1);
            assert(fold_le7_spec(p2) == (a | b << 7u64));
            assert((a | b << 7u64) == a + 128 * b) by (bit_vector)
                requires
                    a < 128 && b < 128,
            ;
            if n == 2 {
                assert(p =~= p2);
                assert(p.drop_first().drop_first() =~= Seq::<u8>::empty());
            } else {
                let c: u64 = (p[2] & 0x7F) as u64;
                lemma_low7(p[2]);
                let p3 = p.take(3);
                assert(p3.drop_last() =~= p2);
                assert(fold_le7_spec(p3) == ((a + 128 * b) as u64 | c << 14u64));
                assert(((a + 128 * b) as u64 | c << 14u64) == a + 128 * b + 16384 * c) by (bit_vector)
                    requires
                        a < 128 && b < 128 && c < 128,
                ;
                if n == 3 {
                    assert(p =~= p3);
                    assert(p.drop_first().drop_first().drop_first() =~= Seq::<u8>::empty());
                } else {
                    let d: u64 = (p[3] & 0x7F) as u64;
                    lemma_low7(p[3]);
                    assert(p.drop_last() =~= p3);
                    assert(fold_le7_spec(p) == ((a + 128 * b + 16384 * c) as u64 | d << 21u64));
                    assert(((a + 128 * b + 16384 * c) as u64 | d << 21u64) == a + 128 * b + 16384 * c + 2097152 * d)
                        by (bit_vector)
                        requires
                            a < 128 && b < 128 && c < 128 && d < 128,
                    ;
                    assert(p.drop_first().drop_first().drop_first().drop_first() =~= Seq::<u8>::empty());
                }
            }
        }
    }
}

/// Timestamp packets carry the number their payload bytes write as
/// little-endian 7-bit groups: a global timestamp (kind 5) the whole
/// number, a local timestamp (kind 4) that number too (it never exceeds 28
/// bits) with its timing-control code; an extension (kind 6) carries the
/// payload bytes themselves.
pub proof fn lemma_continuation_values(tc: u8, payload: Seq<u8>)
    requires
        payload.len() <= 4,
    ensures
        continuation_packet(5, tc, payload).0 == 5 && continuation_packet(5, tc, payload).1 == le7_value(payload),
        continuation_packet(4, tc, payload).0 == 4 && continuation_packet(4, tc, payload).1 == tc
            && continuation_packet(4, tc, payload).2 == le7_value(payload),
        continuation_packet(6, tc, payload).0 == 6 && continuation_packet(6, tc, payload).3 == payload,
        le7_value(payload) < 0x1000_0000,
{
    lemma_fold_le7_value(payload);
    lemma_le7_bound(payload);
    reveal_with_fuel(pow2_7, 5);
    assert(pow2_7(payload.len()) <= 0x1000_0000);
    let v = fold_le7_spec(payload);
    assert(v < 0x1000_0000);
    assert((v as u32) as u64 == v) by (bit_vector)
        requires
            v < 0x1000_0000,
    ;
}

proof fn lemma_le7_bound(p: Seq<u8>)
    ensures
        le7_value(p) < pow2_7(p.len()),
    decreases p.len(),
{
    if p.len() > 0 {
        lemma_le7_bound(p.drop_first());
        lemma_low7(p[0]);
    }
}

/// `128` to the power `n`.
pub open spec fn pow2_7(n: nat) -> nat
    decreases n,
{
    if n == 0 { 1 } else { 128 * pow2_7((n - 1) as nat) }
}


proof fn lemma_cont_end_runs(s: Seq<u8>, k: nat, last: nat)
    requires
        1 <= k <= last <= 4,
        last < s.len(),
        forall|i: int| k <= i < last ==> s[i] & 0x80 != 0,
        s[last as int] & 0x80 == 0 || last == 4,
    ensures
        cont_end(s, k) == Some(last),
    decreases last - k,
{
    if k < last {
        lemma_cont_end_runs(s, k + 1, last);
    }
}

/// A global timestamp on the wire: a `0x94` header, then one to four payload
/// bytes of which all but the last carry the continuation bit (the fourth
/// ends the packet regardless) decode to exactly one global timestamp whose
/// value is the number those bytes write as little-endian 7-bit groups,
/// consuming all of them. So `[0x94, 0x85, 0x03]` gives `5 + 3 * 128 = 389`.
pub proof fn lemma_decode_global_timestamp(payload: Seq<u8>)
    requires
        1 <= payload.len() <= 4,
        forall|i: int| 0 <= i < payload.len() - 1 ==> payload[i] & 0x80 != 0,
        payload.last() & 0x80 == 0 || payload.len() == 4,
    ensures
        decode_spec(seq![0x94u8] + payload) == (seq![(5u8, le7_value(payload) as u64, 0u64, Seq::<u8>::empty())], payload.len() + 1),
{
    let s = seq![0x94u8] + payload;
    let n = payload.len();
    assert(s[0] == 0x94u8);
    assert(0x94u8 & 3 == 0 && 0x94u8 & 0x8F == 0x84 && 0x94u8 & 0xCF == 0x84 && 0x94u8 & 0x80 != 0) by (bit_vector);
    assert forall|i: int| 1 <= i < n implies s[i] & 0x80 != 0 by {
        assert(s[i] == payload[i - 1]);
    }
    assert(s[n as int] == payload.last());
    lemma_cont_end_runs(s, 1, n);
    assert(s.subrange(1, n as int + 1) =~= payload);
    lemma_continuation_values(0, payload);
    assert(step(s) == Some((n + 1, Some(continuation_packet(5, 0, payload)))));
    assert(s.skip(n as int + 1) =~= Seq::<u8>::empty());
    assert(decode_spec(s.skip(n as int + 1)) == (Seq::<PacketModel>::empty(), 0nat));
    assert(opt_seq(Some(continuation_packet(5, 0, payload))) + Seq::<PacketModel>::empty() =~= seq![(5u8, le7_value(payload) as u64, 0u64, Seq::<u8>::empty())]);
}

} // verus!
