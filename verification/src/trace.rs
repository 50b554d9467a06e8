//! Turning decoded ITM packets into named, typed trace events: stimulus port
//! 0 is the UTF-8 log stream, reassembled into whole lines; ports 1–7 carry
//! typed variables named by the project's `[[trace.variables]]` table.

use vstd::prelude::*;
use std::collections::BTreeMap;
use crate::compiler::config::{Trace, TraceVariable};
use crate::itm::{decode_call, lemma_chunking, packet_model, packets_model, Decoder, Packet, PacketModel, MAX_BUFFER};
use crate::text::{dec_digits, owned, str_eq, u64_to_string};

verus! {

/// The numeric type a traced variable's bytes decode to.
#[derive(Debug, Clone, Copy, PartialEq, Eq, Structural)]
pub enum VarType {
    F32,
    U16,
    U32,
    I32,
}

/// The type named by a `type = "…"` field.
pub open spec fn var_type_of(s: Seq<char>) -> Option<VarType> {
    if s == "f32"@ {
        Some(VarType::F32)
    } else if s == "u16"@ {
        Some(VarType::U16)
    } else if s == "u32"@ {
        Some(VarType::U32)
    } else if s == "i32"@ {
        Some(VarType::I32)
    } else {
        None
    }
}

/// The spelling of a type.
pub open spec fn var_type_name(t: VarType) -> Seq<char> {
    match t {
        VarType::F32 => "f32"@,
        VarType::U16 => "u16"@,
        VarType::U32 => "u32"@,
        VarType::I32 => "i32"@,
    }
}

/// The little-endian value of the first `k` bytes of `data` (missing bytes
/// count as zero).
pub open spec fn le_value(data: Seq<u8>, k: nat) -> nat
    decreases k,
{
    if k == 0 || data.len() == 0 {
        0
    } else {
        (data[0] as nat) + 256 * le_value(data.drop_first(), (k - 1) as nat)
    }
}

/// A decoded variable value. An `f32` is kept as its IEEE-754 bits; turning
/// it into a number is left to the presentation layer.
#[derive(Debug, Clone, Copy, PartialEq, Eq, Structural)]
pub enum TraceValue {
    U16(u16),
    U32(u32),
    I32(i32),
    F32Bits(u32),
}

/// What `data` decodes to as a `t`: the first 2 or 4 bytes little-endian,
/// zero-padded when short and truncated when long.
pub open spec fn decode_spec(t: VarType, data: Seq<u8>) -> TraceValue {
    match t {
        VarType::U16 => TraceValue::U16(le_value(data, 2) as u16),
        VarType::U32 => TraceValue::U32(le_value(data, 4) as u32),
        VarType::I32 => TraceValue::I32((le_value(data, 4) as u32) as i32),
        VarType::F32 => TraceValue::F32Bits(le_value(data, 4) as u32),
    }
}

/// `256^k`.
pub open spec fn p256(k: nat) -> nat
    decreases k,
{
    if k == 0 {
        1
    } else {
        256 * p256((k - 1) as nat)
    }
}

proof fn lemma_p256_values()
    ensures
        p256(2) == 65536,
        p256(4) == 4294967296,
{
    assert(p256(0) == 1);
    assert(p256(1) == 256);
    assert(p256(2) == 65536);
    assert(p256(3) == 16777216);
    assert(p256(4) == 4294967296);
}

proof fn lemma_p256_mono(a: nat, b: nat)
    requires
        a <= b,
    ensures
        1 <= p256(a) <= p256(b),
    decreases b,
{
    if b > 0 {
        if a < b {
            lemma_p256_mono(a, (b - 1) as nat);
        } else {
            lemma_p256_mono((a - 1) as nat, (b - 1) as nat);
        }
    }
}

proof fn lemma_le_value_bound(data: Seq<u8>, k: nat)
    ensures
        le_value(data, k) < p256(k),
    decreases k,
{
    lemma_p256_mono(0, k);
    if k > 0 && data.len() > 0 {
        lemma_le_value_bound(data.drop_first(), (k - 1) as nat);
    }
}

/// The little-endian value of the first `k` (at most 4) bytes of `data`.
fn le_word(data: &[u8], k: usize) -> (w: u32)
    requires
        k <= 4,
    ensures
        w == le_value(data@, k as nat),
{
    let n = if data.len() < k { data.len() } else { k };
    let mut w: u64 = 0;
    let mut i = n;
    proof {
        lemma_p256_values();
    }
    while i > 0
        invariant
            n <= k <= 4,
            n <= data@.len(),
            i <= n,
            w == le_value(data@.skip(i as int), (n - i) as nat),
            w < p256((n - i) as nat),
            p256(4) == 4294967296,
        decreases i,
    {
        i -= 1;
        assert(data@.skip(i as int).drop_first() =~= data@.skip(i + 1));
        assert(data@.skip(i as int)[0] == data@[i as int]);
        proof {
            lemma_p256_mono((n - i) as nat, 4);
        }
        w = data[i] as u64 + 256 * w;
    }
    assert(data@.skip(0) =~= data@);
    proof {
        lemma_le_value_prefix(data@, n as nat, k as nat);
        lemma_p256_mono(n as nat, 4);
    }
    w as u32
}

proof fn lemma_le_value_prefix(data: Seq<u8>, n: nat, k: nat)
    requires
        n <= k,
        n == k || n == data.len(),
    ensures
        le_value(data, n) == le_value(data, k),
    decreases n,
{
    if n > 0 && data.len() > 0 {
        lemma_le_value_prefix(data.drop_first(), (n - 1) as nat, (k - 1) as nat);
    }
}

impl VarType {
    /// Parse the `type = "…"` field of a `[[trace.variables]]` entry.
    pub fn parse(s: &str) -> (r: Option<VarType>)
        ensures
            r == var_type_of(s@),
    {
        if str_eq(s, "f32") {
            Some(VarType::F32)
        } else if str_eq(s, "u16") {
            Some(VarType::U16)
        } else if str_eq(s, "u32") {
            Some(VarType::U32)
        } else if str_eq(s, "i32") {
            Some(VarType::I32)
        } else {
            None
        }
    }

    /// The type's spelling.
    pub fn name(self) -> (s: &'static str)
        ensures
            s@ == var_type_name(self),
    {
        match self {
            VarType::F32 => "f32",
            VarType::U16 => "u16",
            VarType::U32 => "u32",
            VarType::I32 => "i32",
        }
    }

    /// Decode little-endian `data`, zero-padding or truncating to the type's
    /// width so a malformed width never panics.
    pub fn decode(self, data: &[u8]) -> (v: TraceValue)
        ensures
            v == decode_spec(self, data@),
    {
        match self {
            VarType::U16 => {
                let w = le_word(data, 2);
                proof {
                    lemma_le_value_bound(data@, 2);
                    lemma_p256_values();
                }
                TraceValue::U16(w as u16)
            },
            VarType::U32 => TraceValue::U32(le_word(data, 4)),
            VarType::I32 => TraceValue::I32(le_word(data, 4) as i32),
            VarType::F32 => TraceValue::F32Bits(le_word(data, 4)),
        }
    }
}

/// One traced variable: its name and decode type.
#[derive(Debug, Clone)]
pub struct Variable {
    pub name: String,
    pub ty: VarType,
}

/// Port → variable mapping, built from `[[trace.variables]]`.
#[derive(Debug, Clone)]
pub struct VariableMap(pub BTreeMap<u8, Variable>);

impl View for VariableMap {
    type V = Map<u8, (Seq<char>, VarType)>;

    open spec fn view(&self) -> Map<u8, (Seq<char>, VarType)> {
        self.0@.map_values(|v: Variable| (v.name@, v.ty))
    }
}

/// The map `[[trace.variables]]` builds: entries in order, a later entry on
/// a port replacing an earlier one, entries with an unknown type skipped.
pub open spec fn config_map(vs: Seq<TraceVariable>) -> Map<u8, (Seq<char>, VarType)>
    decreases vs.len(),
{
    if vs.len() == 0 {
        Map::empty()
    } else {
        let m = config_map(vs.drop_last());
        match var_type_of(vs.last().ty@) {
            Some(t) => m.insert(vs.last().port, (vs.last().name@, t)),
            None => m,
        }
    }
}

impl VariableMap {
    /// An empty map.
    pub fn new() -> (m: VariableMap)
        ensures
            m@ == Map::<u8, (Seq<char>, VarType)>::empty(),
    {
        let m = VariableMap(BTreeMap::new());
        assert(m@ =~= Map::<u8, (Seq<char>, VarType)>::empty());
        m
    }

    /// Register `name`/`ty` on stimulus `port`, replacing what was there.
    pub fn insert(&mut self, port: u8, name: &str, ty: VarType)
        ensures
            final(self)@ == old(self)@.insert(port, (name@, ty)),
    {
        let ghost before = self@;
        self.0.insert(port, Variable { name: owned(name), ty });
        assert(self@ =~= before.insert(port, (name@, ty)));
    }

    /// Build a map from a parsed `[trace]` section, skipping entries with an
    /// unknown type (port 0 is the log stream and needs no entry).
    pub fn from_config(trace: &Trace) -> (m: VariableMap)
        ensures
            m@ == config_map(trace.variables@),
    {
        let mut map = VariableMap::new();
        let mut i: usize = 0;
        while i < trace.variables.len()
            invariant
                0 <= i <= trace.variables@.len(),
                map@ == config_map(trace.variables@.take(i as int)),
            decreases trace.variables@.len() - i,
        {
            let v = &trace.variables[i];
            assert(trace.variables@.take(i + 1).drop_last() =~= trace.variables@.take(i as int));
            assert(trace.variables@.take(i + 1).last() == trace.variables@[i as int]);
            if let Some(ty) = VarType::parse(v.ty.as_str()) {
                map.insert(v.port, v.name.as_str(), ty);
            }
            i += 1;
        }
        assert(trace.variables@.take(trace.variables@.len() as int) =~= trace.variables@);
        map
    }

    /// A copy of the map.
    pub fn duplicate(&self) -> (m: VariableMap)
        ensures
            m@ == self@,
    {
        VariableMap(self.0.clone())
    }

    /// The variable on `port`, if any.
    pub fn get(&self, port: u8) -> (r: Option<&Variable>)
        ensures
            match r {
                Some(v) => self@.contains_key(port) && self@[port] == (v.name@, v.ty),
                None => !self@.contains_key(port),
            },
    {
        self.0.get(&port)
    }
}

/// What `String::from_utf8_lossy` makes of a byte string.
pub uninterp spec fn utf8_lossy_spec(bytes: Seq<u8>) -> Seq<char>;

/// `String::from_utf8_lossy`, as an owned string. The contract names the
/// result as a function of the bytes, and states what std documents for
/// valid UTF-8: the text is the bytes decoded unchanged. The replacement of
/// invalid sequences is std's.
#[verifier::external_body]
fn utf8_lossy(bytes: &[u8]) -> (s: String)
    ensures
        s@ == utf8_lossy_spec(bytes@),
        vstd::utf8::valid_utf8(bytes@) ==> s@ == vstd::utf8::decode_utf8(bytes@),
{
    String::from_utf8_lossy(bytes).into_owned()
}

/// A structured trace event.
#[derive(Debug, Clone, PartialEq, Eq)]
pub enum TraceEvent {
    /// A line from the port-0 log stream.
    Log { message: String },
    /// A typed variable update from ports 1–7.
    Variable { port: u8, name: String, ty: &'static str, value: TraceValue },
    /// The device reported a trace FIFO overflow.
    Overflow,
}

/// Port-0 bytes appended to a pending line: the lines each newline
/// completes, and the new pending line. Carriage returns are dropped.
pub open spec fn push_log_spec(line: Seq<u8>, data: Seq<u8>) -> (Seq<Seq<u8>>, Seq<u8>)
    decreases data.len(),
{
    if data.len() == 0 {
        (Seq::empty(), line)
    } else {
        let (lines, rest) = push_log_spec(line, data.drop_last());
        let b = data.last();
        if b == 10 {
            (lines.push(rest), Seq::empty())
        } else if b == 13 {
            (lines, rest)
        } else {
            (lines, rest.push(b))
        }
    }
}

/// Feeding the log stream in two chunks completes the same lines, and
/// leaves the same pending line, as feeding it at once.
pub proof fn lemma_log_chunking(line: Seq<u8>, a: Seq<u8>, b: Seq<u8>)
    ensures
        ({
            let (l1, r1) = push_log_spec(line, a);
            let (l2, r2) = push_log_spec(r1, b);
            push_log_spec(line, a + b) == (l1 + l2, r2)
        }),
    decreases b.len(),
{
    let (l1, r1) = push_log_spec(line, a);
    if b.len() == 0 {
        assert(a + b =~= a);
        assert(l1 + Seq::<Seq<u8>>::empty() =~= l1);
    } else {
        lemma_log_chunking(line, a, b.drop_last());
        assert((a + b).drop_last() =~= a + b.drop_last());
        assert((a + b).last() == b.last());
        let (l2, r2) = push_log_spec(r1, b.drop_last());
        assert((l1 + l2).push(r2) =~= l1 + l2.push(r2));
    }
}

/// `events` are the log events of `lines`, in order.
pub open spec fn log_events(events: Seq<TraceEvent>, lines: Seq<Seq<u8>>) -> bool {
    &&& events.len() == lines.len()
    &&& forall|i: int| 0 <= i < events.len() ==> (#[trigger] events[i] matches TraceEvent::Log { message } && message@ == utf8_lossy_spec(lines[i]))
}

/// Stateful translator: maps a stream of packets to events, reassembling
/// port-0 bytes into whole log lines.
#[derive(Debug)]
pub struct Translator {
    vars: VariableMap,
    /// Bytes received on port 0 since the last newline.
    log_line: Vec<u8>,
}

impl Translator {
    /// The variables it decodes.
    pub closed spec fn vars_model(&self) -> Map<u8, (Seq<char>, VarType)> {
        self.vars@
    }

    /// The pending (not yet newline-terminated) log bytes.
    pub closed spec fn pending(&self) -> Seq<u8> {
        self.log_line@
    }

    /// A translator for `vars` with nothing pending.
    pub fn new(vars: VariableMap) -> (t: Translator)
        ensures
            t.vars_model() == vars@,
            t.pending() == Seq::<u8>::empty(),
    {
        Translator { vars, log_line: Vec::new() }
    }

    /// Translate one packet into zero or more events: port-0 bytes complete
    /// log lines; a mapped port yields one decoded variable; an overflow is
    /// reported; everything else yields nothing.
    pub fn translate(&mut self, packet: &Packet) -> (events: Vec<TraceEvent>)
        ensures
            final(self).vars_model() == old(self).vars_model(),
            match *packet {
                Packet::Instrumentation { port, data } => if port == 0 {
                    let (lines, rest) = push_log_spec(old(self).pending(), data@);
                    log_events(events@, lines) && final(self).pending() == rest
                } else {
                    &&& final(self).pending() == old(self).pending()
                    &&& if old(self).vars_model().contains_key(port) {
                        let (name, ty) = old(self).vars_model()[port];
                        &&& events@.len() == 1
                        &&& (events@[0] matches TraceEvent::Variable { port: p, name: n, ty: t, value }
                            && p == port && n@ == name && t@ == var_type_name(ty) && value == decode_spec(ty, data@))
                    } else {
                        events@.len() == 0
                    }
                },
                Packet::Overflow => events@ == seq![TraceEvent::Overflow] && final(self).pending() == old(self).pending(),
                _ => events@.len() == 0 && final(self).pending() == old(self).pending(),
            },
    {
        match packet {
            Packet::Instrumentation { port, data } => {
                if *port == 0 {
                    self.push_log_bytes(data.as_slice())
                } else {
                    match self.vars.get(*port) {
                        Some(var) => {
                            let ev = TraceEvent::Variable {
                                port: *port,
                                name: owned(var.name.as_str()),
                                ty: var.ty.name(),
                                value: var.ty.decode(data.as_slice()),
                            };
                            let mut events: Vec<TraceEvent> = Vec::new();
                            events.push(ev);
                            events
                        },
                        None => Vec::new(),
                    }
                }
            },
            Packet::Overflow => {
                let mut events: Vec<TraceEvent> = Vec::new();
                events.push(TraceEvent::Overflow);
                assert(events@ =~= seq![TraceEvent::Overflow]);
                events
            },
            _ => Vec::new(),
        }
    }

    /// Flush a pending partial log line (e.g. on shutdown).
    pub fn flush(&mut self) -> (events: Vec<TraceEvent>)
        ensures
            final(self).vars_model() == old(self).vars_model(),
            final(self).pending() == Seq::<u8>::empty(),
            old(self).pending().len() == 0 ==> events@.len() == 0,
            old(self).pending().len() > 0 ==> log_events(events@, seq![old(self).pending()]),
    {
        if self.log_line.len() == 0 {
            assert(self.log_line@ =~= Seq::<u8>::empty());
            return Vec::new();
        }
        let message = utf8_lossy(self.log_line.as_slice());
        self.log_line = Vec::new();
        let mut events: Vec<TraceEvent> = Vec::new();
        events.push(TraceEvent::Log { message });
        events
    }

    fn push_log_bytes(&mut self, data: &[u8]) -> (events: Vec<TraceEvent>)
        ensures
            final(self).vars@ == old(self).vars@,
            ({
                let (lines, rest) = push_log_spec(old(self).log_line@, data@);
                log_events(events@, lines) && final(self).log_line@ == rest
            }),
    {
        let ghost start = self.log_line@;
        let mut events: Vec<TraceEvent> = Vec::new();
        let mut i: usize = 0;
        while i < data.len()
            invariant
                0 <= i <= data@.len(),
                self.vars@ == old(self).vars@,
                start == old(self).log_line@,
                ({
                    let (lines, rest) = push_log_spec(start, data@.take(i as int));
                    log_events(events@, lines) && self.log_line@ == rest
                }),
            decreases data@.len() - i,
        {
            let b = data[i];
            assert(data@.take(i + 1).drop_last() =~= data@.take(i as int));
            assert(data@.take(i + 1).last() == b);
            if b == 10 {
                let message = utf8_lossy(self.log_line.as_slice());
                self.log_line = Vec::new();
                events.push(TraceEvent::Log { message });
            } else if b != 13 {
                self.log_line.push(b);
            }
            i += 1;
        }
        assert(data@.take(data@.len() as int) =~= data@);
        events
    }
}

/// The default WebSocket port of the trace daemon.
pub const DEFAULT_WS_PORT: u16 = 7878;

/// Where the raw SWO byte stream comes from.
#[derive(Debug)]
pub enum Source {
    /// A TCP socket OpenOCD streams trace data to.
    Tcp(String),
    /// A captured raw-SWO file.
    File(std::path::PathBuf),
}

/// Options of the trace daemon.
pub struct TraceOptions {
    /// Address to bind the WebSocket server on, e.g. `127.0.0.1:7878`.
    pub ws_addr: String,
    /// Where SWO bytes come from.
    pub source: Source,
    /// Optional OpenOCD telnet setup: `(telnet_addr, trace_port, cpu_hz, swo_hz)`.
    pub openocd: Option<(String, u16, u32, u32)>,
    /// Port → variable map from `[[trace.variables]]`.
    pub variables: VariableMap,
}


/// The OpenOCD console commands that route SWO/ITM capture to the internal
/// TCP port `trace_port`, for a core clock `cpu_hz` and SWO clock `swo_hz`.
pub fn openocd_commands(trace_port: u16, cpu_hz: u32, swo_hz: u32) -> (r: Vec<String>)
    ensures
        r@.len() == 2,
        r@[0]@ == "tpiu config internal :"@ + dec_digits(trace_port as nat) + " uart off "@ + dec_digits(cpu_hz as nat)
            + " "@ + dec_digits(swo_hz as nat),
        r@[1]@ == "itm ports on"@,
{
    let mut first = String::from_str("tpiu config internal :");
    first.append(u64_to_string(trace_port as u64).as_str());
    first.append(" uart off ");
    first.append(u64_to_string(cpu_hz as u64).as_str());
    first.append(" ");
    first.append(u64_to_string(swo_hz as u64).as_str());
    let second = String::from_str("itm ports on");
    vec![first, second]
}


/// A trace event as plain values: kind (0 log line, 1 variable update,
/// 2 overflow), port, variable name, type name, decoded value, log message.
pub type EventView = (u8, u8, Seq<char>, Seq<char>, Option<TraceValue>, Seq<char>);

pub open spec fn event_view(e: TraceEvent) -> EventView {
    match e {
        TraceEvent::Log { message } => (0u8, 0u8, Seq::empty(), Seq::empty(), None, message@),
        TraceEvent::Variable { port, name, ty, value } => (1u8, port, name@, ty@, Some(value), Seq::empty()),
        TraceEvent::Overflow => (2u8, 0u8, Seq::empty(), Seq::empty(), None, Seq::empty()),
    }
}

pub open spec fn events_view(es: Seq<TraceEvent>) -> Seq<EventView> {
    es.map_values(|e: TraceEvent| event_view(e))
}

/// The log events of completed lines.
pub open spec fn line_events(lines: Seq<Seq<u8>>) -> Seq<EventView> {
    Seq::new(lines.len(), |i: int| (0u8, 0u8, Seq::<char>::empty(), Seq::<char>::empty(), None::<TraceValue>, utf8_lossy_spec(lines[i])))
}

/// What one packet becomes, given the variable map and the pending log
/// line: its events and the new pending line.
pub open spec fn translate_spec(vars: Map<u8, (Seq<char>, VarType)>, pending: Seq<u8>, p: PacketModel) -> (Seq<EventView>, Seq<u8>) {
    if p.0 == 0 {
        let port = p.1 as u8;
        if port == 0 {
            let (lines, rest) = push_log_spec(pending, p.3);
            (line_events(lines), rest)
        } else if vars.contains_key(port) {
            let (name, ty) = vars[port];
            (seq![(1u8, port, name, var_type_name(ty), Some(decode_spec(ty, p.3)), Seq::<char>::empty())], pending)
        } else {
            (Seq::empty(), pending)
        }
    } else if p.0 == 2 {
        (seq![(2u8, 0u8, Seq::<char>::empty(), Seq::<char>::empty(), None::<TraceValue>, Seq::<char>::empty())], pending)
    } else {
        (Seq::empty(), pending)
    }
}

/// What a run of packets becomes: their events in order and the pending
/// log line left at the end.
pub open spec fn translate_all(vars: Map<u8, (Seq<char>, VarType)>, pending: Seq<u8>, ps: Seq<PacketModel>) -> (Seq<EventView>, Seq<u8>)
    decreases ps.len(),
{
    if ps.len() == 0 {
        (Seq::empty(), pending)
    } else {
        let (evs, mid) = translate_all(vars, pending, ps.drop_last());
        let (more, last) = translate_spec(vars, mid, ps.last());
        (evs + more, last)
    }
}

/// The decoder and the translator together: raw SWO bytes in, trace events
/// out.
#[derive(Debug)]
pub struct TracePipeline {
    pub decoder: Decoder,
    pub translator: Translator,
}

impl TracePipeline {
    /// A pipeline decoding `vars`, with nothing buffered.
    pub fn new(vars: VariableMap) -> (p: TracePipeline)
        ensures
            p.decoder@ == Seq::<u8>::empty(),
            p.translator.vars_model() == vars@,
            p.translator.pending() == Seq::<u8>::empty(),
    {
        TracePipeline { decoder: Decoder::new(), translator: Translator::new(vars) }
    }

    /// Decode `bytes` and translate every packet they complete, in order.
    pub fn ingest(&mut self, bytes: &[u8]) -> (events: Vec<TraceEvent>)
        ensures
            final(self).decoder@ == decode_call(old(self).decoder@, bytes@).1,
            final(self).translator.vars_model() == old(self).translator.vars_model(),
            events_view(events@) == translate_all(
                old(self).translator.vars_model(),
                old(self).translator.pending(),
                decode_call(old(self).decoder@, bytes@).0,
            ).0,
            final(self).translator.pending() == translate_all(
                old(self).translator.vars_model(),
                old(self).translator.pending(),
                decode_call(old(self).decoder@, bytes@).0,
            ).1,
    {
        let packets = self.decoder.decode(bytes);
        let ghost ps = packets_model(packets@);
        let ghost vars = self.translator.vars_model();
        let ghost pending0 = self.translator.pending();
        let ghost buf = self.decoder@;
        let mut events: Vec<TraceEvent> = Vec::new();
        let mut i: usize = 0;
        assert(ps.take(0) =~= Seq::<PacketModel>::empty());
        assert(events_view(events@) =~= Seq::<EventView>::empty());
        while i < packets.len()
            invariant
                0 <= i <= packets@.len(),
                ps == packets_model(packets@),
                self.decoder@ == buf,
                self.translator.vars_model() == vars,
                events_view(events@) == translate_all(vars, pending0, ps.take(i as int)).0,
                self.translator.pending() == translate_all(vars, pending0, ps.take(i as int)).1,
            decreases packets@.len() - i,
        {
            let ghost before = events_view(events@);
            let ghost mid = self.translator.pending();
            let more = self.translator.translate(&packets[i]);
            proof {
                lemma_translate_view(vars, mid, packets@[i as int], more@, self.translator.pending());
                assert(ps[i as int] == packet_model(packets@[i as int]));
                assert(ps.take(i + 1).drop_last() =~= ps.take(i as int));
                assert(ps.take(i + 1).last() == ps[i as int]);
            }
            let mut k: usize = 0;
            while k < more.len()
                invariant
                    0 <= k <= more@.len(),
                    events_view(events@) == before + events_view(more@.take(k as int)),
                decreases more@.len() - k,
            {
                let ghost prev = events_view(events@);
                events.push(copy_event(&more[k]));
                assert(events_view(events@) =~= prev.push(event_view(more@[k as int])));
                assert(events_view(more@.take(k + 1)) =~= events_view(more@.take(k as int)).push(event_view(more@[k as int])));
                k += 1;
            }
            assert(more@.take(more@.len() as int) =~= more@);
            i += 1;
        }
        assert(ps.take(packets@.len() as int) =~= ps);
        events
    }

    /// Emit the pending partial log line, if any.
    pub fn flush(&mut self) -> (events: Vec<TraceEvent>)
        ensures
            final(self).decoder@ == old(self).decoder@,
            final(self).translator.vars_model() == old(self).translator.vars_model(),
            final(self).translator.pending() == Seq::<u8>::empty(),
            old(self).translator.pending().len() == 0 ==> events@.len() == 0,
            old(self).translator.pending().len() > 0 ==> events_view(events@) == line_events(seq![old(self).translator.pending()]),
    {
        let ghost pending = self.translator.pending();
        let events = self.translator.flush();
        proof {
            if pending.len() > 0 {
                assert(events_view(events@) =~= line_events(seq![pending]));
            }
        }
        events
    }
}

fn copy_event(e: &TraceEvent) -> (r: TraceEvent)
    ensures
        event_view(r) == event_view(*e),
{
    match e {
        TraceEvent::Log { message } => TraceEvent::Log { message: owned(message.as_str()) },
        TraceEvent::Variable { port, name, ty, value } => TraceEvent::Variable {
            port: *port,
            name: owned(name.as_str()),
            ty: *ty,
            value: *value,
        },
        TraceEvent::Overflow => TraceEvent::Overflow,
    }
}

/// What `translate` did to one packet, as plain values.
proof fn lemma_translate_view(
    vars: Map<u8, (Seq<char>, VarType)>,
    pending: Seq<u8>,
    packet: Packet,
    events: Seq<TraceEvent>,
    after: Seq<u8>,
)
    requires
        match packet {
            Packet::Instrumentation { port, data } => if port == 0 {
                let (lines, rest) = push_log_spec(pending, data@);
                log_events(events, lines) && after == rest
            } else {
                &&& after == pending
                &&& if vars.contains_key(port) {
                    let (name, ty) = vars[port];
                    &&& events.len() == 1
                    &&& (events[0] matches TraceEvent::Variable { port: p, name: n, ty: t, value } && p == port && n@ == name
                        && t@ == var_type_name(ty) && value == decode_spec(ty, data@))
                } else {
                    events.len() == 0
                }
            },
            Packet::Overflow => events == seq![TraceEvent::Overflow] && after == pending,
            _ => events.len() == 0 && after == pending,
        },
    ensures
        events_view(events) == translate_spec(vars, pending, packet_model(packet)).0,
        after == translate_spec(vars, pending, packet_model(packet)).1,
{
    match packet {
        Packet::Instrumentation { port, data } => {
            assert((port as u64) as u8 == port);
            if port == 0 {
                let (lines, rest) = push_log_spec(pending, data@);
                assert forall|i: int| 0 <= i < events.len() implies #[trigger] events_view(events)[i] == line_events(lines)[i] by {
                    assert(events[i] matches TraceEvent::Log { message } && message@ == utf8_lossy_spec(lines[i]));
                }
                assert(events_view(events) =~= line_events(lines));
            } else if vars.contains_key(port) {
                assert(events_view(events) =~= translate_spec(vars, pending, packet_model(packet)).0);
            } else {
                assert(events_view(events) =~= Seq::<EventView>::empty());
            }
        },
        Packet::Overflow => {
            assert(events_view(events) =~= translate_spec(vars, pending, packet_model(packet)).0);
        },
        _ => {
            assert(events_view(events) =~= Seq::<EventView>::empty());
        },
    }
}


/// Translating two runs of packets one after the other is translating them
/// as one run.
proof fn lemma_translate_all_append(vars: Map<u8, (Seq<char>, VarType)>, pending: Seq<u8>, xs: Seq<PacketModel>, ys: Seq<PacketModel>)
    ensures
        ({
            let (e1, mid) = translate_all(vars, pending, xs);
            let (e2, last) = translate_all(vars, mid, ys);
            translate_all(vars, pending, xs + ys) == (e1 + e2, last)
        }),
    decreases ys.len(),
{
    let (e1, mid) = translate_all(vars, pending, xs);
    if ys.len() == 0 {
        assert(xs + ys =~= xs);
        assert(e1 + Seq::<EventView>::empty() =~= e1);
    } else {
        lemma_translate_all_append(vars, pending, xs, ys.drop_last());
        assert((xs + ys).drop_last() =~= xs + ys.drop_last());
        assert((xs + ys).last() == ys.last());
        let (e2, m2) = translate_all(vars, mid, ys.drop_last());
        let (e3, _) = translate_spec(vars, m2, ys.last());
        assert((e1 + e2) + e3 =~= e1 + (e2 + e3));
    }
}

/// Chunking law of the pipeline: feeding it `a` and then `b` yields the
/// same events, and leaves the same decoder buffer and pending log line, as
/// feeding it `a ++ b` at once — provided the first call did not hit the
/// decoder's buffer cap.
pub proof fn lemma_pipeline_chunking(
    vars: Map<u8, (Seq<char>, VarType)>,
    pending: Seq<u8>,
    buffer: Seq<u8>,
    a: Seq<u8>,
    b: Seq<u8>,
)
    requires
        (buffer + a).skip(crate::itm::decode_spec(buffer + a).1 as int).len() <= MAX_BUFFER,
    ensures
        ({
            let (p1, buf1) = decode_call(buffer, a);
            let (e1, pend1) = translate_all(vars, pending, p1);
            let (p2, buf2) = decode_call(buf1, b);
            let (e2, pend2) = translate_all(vars, pend1, p2);
            let (p, buf) = decode_call(buffer, a + b);
            let (e, pend) = translate_all(vars, pending, p);
            e1 + e2 == e && pend2 == pend && buf2 == buf
        }),
{
    lemma_chunking(buffer, a, b);
    let (p1, buf1) = decode_call(buffer, a);
    let (p2, _) = decode_call(buf1, b);
    lemma_translate_all_append(vars, pending, p1, p2);
}

} // verus!
