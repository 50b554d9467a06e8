use nucleus::itm::{Decoder, Packet};


/// Decode a whole buffer in one shot.
fn decode_all(bytes: &[u8]) -> Vec<Packet> {
    Decoder::new().decode(bytes)
}

#[test]
fn decodes_port0_log_bytes() {
    // Port 0, 1-byte payload: header = (0 << 3) | 0b01 = 0x01.
    let stream = [0x01, b'H', 0x01, b'i'];
    assert_eq!(
        decode_all(&stream),
        vec![
            Packet::Instrumentation {
                port: 0,
                data: vec![b'H']
            },
            Packet::Instrumentation {
                port: 0,
                data: vec![b'i']
            },
        ]
    );
}

#[test]
fn decodes_4byte_variable_on_port1() {
    // Port 1, 4-byte payload: header = (1 << 3) | 0b11 = 0x0B.
    let value = 3.5f32.to_le_bytes();
    let mut stream = vec![0x0B];
    stream.extend_from_slice(&value);
    assert_eq!(
        decode_all(&stream),
        vec![Packet::Instrumentation {
            port: 1,
            data: value.to_vec()
        }]
    );
}

#[test]
fn distinguishes_hardware_source_packets() {
    // Hardware bit (0b100) set: header = (2 << 3) | 0b100 | 0b01 = 0x15.
    assert_eq!(
        decode_all(&[0x15, 0x42]),
        vec![Packet::Hardware {
            discriminator: 2,
            data: vec![0x42]
        }]
    );
}

#[test]
fn decodes_overflow_and_sync() {
    assert_eq!(decode_all(&[0x70]), vec![Packet::Overflow]);
    // Sync: five zero bytes then 0x80.
    assert_eq!(
        decode_all(&[0x00, 0x00, 0x00, 0x00, 0x00, 0x80]),
        vec![Packet::Synchronization]
    );
}

#[test]
fn handles_packets_split_across_reads() {
    // A 4-byte payload packet delivered one byte at a time must still decode
    // exactly once, when the last byte arrives.
    let mut dec = Decoder::new();
    let stream = [0x0B, 0xAA, 0xBB, 0xCC, 0xDD];
    let mut out = Vec::new();
    for b in stream {
        out.extend(dec.decode(&[b]));
    }
    assert_eq!(
        out,
        vec![Packet::Instrumentation {
            port: 1,
            data: vec![0xAA, 0xBB, 0xCC, 0xDD]
        }]
    );
}

#[test]
fn chunking_does_not_change_the_decoded_stream() {
    // Decoding a fixed buffer all at once must equal decoding it in pieces.
    let stream = [
        0x01, b'A', 0x70, 0x0B, 1, 2, 3, 4, 0x00, 0x00, 0x00, 0x00, 0x00, 0x80, 0x09, 0xDE,
        0xAD,
    ];
    let whole = decode_all(&stream);
    for chunk in 1..=stream.len() {
        let mut dec = Decoder::new();
        let mut pieced = Vec::new();
        for part in stream.chunks(chunk) {
            pieced.extend(dec.decode(part));
        }
        assert_eq!(whole, pieced, "mismatch at chunk size {chunk}");
    }
}

#[test]
fn local_timestamp_single_and_multibyte() {
    // Format 2 single byte: 0b0011_0000 = 0x30 (TTT = 011).
    assert_eq!(
        decode_all(&[0x30]),
        vec![Packet::LocalTimestamp { tc: 0, ts: 3 }]
    );
    // Format 1: header 0xC0 + two continuation payload bytes.
    assert_eq!(
        decode_all(&[0xC0, 0x81, 0x02]),
        vec![Packet::LocalTimestamp {
            tc: 0,
            ts: 0x01 | (0x02 << 7)
        }]
    );
}

#[test]
fn resyncs_after_garbage_via_sync_packet() {
    // A reserved protocol byte (0x04) is skipped; a following source packet
    // still decodes.
    let out = decode_all(&[0x04, 0x01, b'Z']);
    assert_eq!(
        out,
        vec![Packet::Instrumentation {
            port: 0,
            data: vec![b'Z']
        }]
    );
}

/// Deterministic xorshift PRNG so the fuzz test is reproducible.
struct Rng(u64);
impl Rng {
    fn next(&mut self) -> u64 {
        let mut x = self.0;
        x ^= x << 13;
        x ^= x >> 7;
        x ^= x << 17;
        self.0 = x;
        x
    }
    fn byte(&mut self) -> u8 {
        (self.next() & 0xFF) as u8
    }
}

#[test]
fn never_panics_on_random_input() {
    // The core robustness requirement: arbitrary bytes, delivered in
    // arbitrary chunk sizes, must never panic and must stay memory-bounded.
    let mut rng = Rng(0x1234_5678_9abc_def0);
    for _ in 0..2_000 {
        let len = (rng.next() % 512) as usize;
        let bytes: Vec<u8> = (0..len).map(|_| rng.byte()).collect();

        let mut dec = Decoder::new();
        let mut single = Vec::new();
        for &b in &bytes {
            single.extend(dec.decode(&[b]));
        }
        // Feeding the same bytes in random chunks yields the same packets.
        let mut dec2 = Decoder::new();
        let mut chunked = Vec::new();
        let mut i = 0;
        while i < bytes.len() {
            let step = ((rng.next() % 7) + 1) as usize;
            let end = (i + step).min(bytes.len());
            chunked.extend(dec2.decode(&bytes[i..end]));
            i = end;
        }
        assert_eq!(single, chunked);
    }
}

#[test]
fn long_zero_run_stays_memory_bounded() {
    // A pathological all-zero stream must not grow the buffer unboundedly.
    let mut dec = Decoder::new();
    for _ in 0..100 {
        dec.decode(&[0u8; 50_000]);
    }
    // No assertion on packets; the point is that this returns without OOM
    // or panic. (Buffer is internally capped at MAX_BUFFER.)
}
