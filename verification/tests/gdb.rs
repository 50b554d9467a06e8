use nucleus::hil::gdb::{
    ack_reply, checksum, decode_hex, frame_packet, memory_reply, packet_text, read_memory_payload, u32_to_hex,
    write_memory_payload, write_reply, PacketReader, Phase,
};
use nucleus::hil::HilError;

/// Feeds a stub's bytes through a reader and returns the first packet body.
fn read_back(bytes: &[u8]) -> Option<Vec<u8>> {
    let mut reader = PacketReader::new();
    for b in bytes {
        if let Some(body) = reader.push(*b) {
            return Some(body);
        }
    }
    None
}

fn reply(payload: &str) -> String {
    let framed = frame_packet(payload);
    packet_text(read_back(&framed).unwrap()).unwrap()
}

#[test]
fn reads_memory_from_well_formed_reply() {
    let bytes = memory_reply(&reply("deadbeef")).unwrap();
    assert_eq!(bytes, vec![0xde, 0xad, 0xbe, 0xef]);
}

#[test]
fn malformed_reply_is_a_protocol_error_not_a_panic() {
    let result = memory_reply(&reply("not-hex!!"));
    assert!(matches!(result, Err(HilError::Protocol(_))));
}

#[test]
fn target_error_reply_is_a_protocol_error() {
    let result = memory_reply(&reply("E01"));
    assert!(matches!(result, Err(HilError::Protocol(_))));
}

#[test]
fn writes_memory_and_accepts_ok_reply() {
    assert_eq!(write_memory_payload(0x2000_0000, &[0x67, 0x41, 0x54, 0x4e]), "M20000000,4:6741544e");
    assert!(write_reply(&reply("OK")).is_ok());
}

#[test]
fn write_memory_surfaces_error_reply() {
    let err = write_reply(&reply("E01")).unwrap_err();
    assert!(matches!(err, HilError::Protocol(_)));
}

#[test]
fn frames_with_a_two_digit_checksum() {
    assert_eq!(checksum(b"OK"), 0x9a);
    assert_eq!(frame_packet("OK"), b"$OK#9a".to_vec());
    assert_eq!(frame_packet("c"), b"$c#63".to_vec());
    assert_eq!(frame_packet(""), b"$#00".to_vec());
}

#[test]
fn read_request_payload_is_hex() {
    assert_eq!(read_memory_payload(0x4002_0010, 4), "m40020010,4");
    assert_eq!(read_memory_payload(0, 255), "m0,ff");
    assert_eq!(u32_to_hex(0xdead_beef), "deadbeef");
}

#[test]
fn decode_hex_accepts_both_cases_and_rejects_odd_lengths() {
    assert_eq!(decode_hex("DEadBEef"), Some(vec![0xde, 0xad, 0xbe, 0xef]));
    assert_eq!(decode_hex(""), Some(vec![]));
    assert_eq!(decode_hex("abc"), None);
    assert_eq!(decode_hex("zz"), None);
}

#[test]
fn reader_skips_noise_before_a_packet_and_restarts_after() {
    let mut stream = b"+junk".to_vec();
    stream.extend(frame_packet("S05"));
    stream.extend(frame_packet("OK"));
    let mut reader = PacketReader::new();
    let mut bodies = Vec::new();
    for b in &stream {
        if let Some(body) = reader.push(*b) {
            bodies.push(body);
        }
    }
    assert_eq!(bodies, vec![b"S05".to_vec(), b"OK".to_vec()]);
    assert_eq!(reader.phase, Phase::Seeking);
}

#[test]
fn ack_must_be_a_plus() {
    assert!(ack_reply(b'+').is_ok());
    match ack_reply(b'-') {
        Err(HilError::Protocol(m)) => assert_eq!(m, "expected '+' ack, got '-'"),
        other => panic!("unexpected {other:?}"),
    }
}

#[test]
fn non_utf8_body_is_a_protocol_error() {
    match packet_text(vec![0xff, 0xfe]) {
        Err(HilError::Protocol(m)) => assert_eq!(m, "non-utf8 packet body"),
        other => panic!("unexpected {other:?}"),
    }
}
