use nucleus::sdk::{
    command_writes, magic_step, next_seq, rx_byte, status_step, version_check, SdkError, CMD_SET_GPIO, MAGIC,
    MAILBOX_BASE, PROTO_VERSION, RX_NONE, STATUS_BUSY, STATUS_DONE, STATUS_ERR,
};

#[test]
fn connect_waits_through_a_boot_race_then_gives_up() {
    assert!(matches!(magic_step(MAGIC, false), Ok(true)));
    assert!(matches!(magic_step(MAGIC, true), Ok(true)));
    assert!(matches!(magic_step(0, false), Ok(false)));
    assert!(matches!(magic_step(0, true), Err(SdkError::BadMagic(0))));
    assert!(matches!(magic_step(0xdead_beef, false), Err(SdkError::BadMagic(0xdead_beef))));
}

#[test]
fn version_must_match() {
    assert_eq!(version_check(PROTO_VERSION).unwrap(), PROTO_VERSION);
    assert!(matches!(version_check(99), Err(SdkError::VersionMismatch { found: 99, expected: 1 })));
    assert_eq!(version_check(99).unwrap_err().to_string(), "agent protocol v99, SDK expects v1");
}

#[test]
fn status_polling_outcomes() {
    assert!(matches!(status_step(STATUS_DONE, 1, true), Ok(true)));
    assert!(matches!(status_step(STATUS_ERR, 7, false), Err(SdkError::AgentError { cmd: 7 })));
    assert!(matches!(status_step(STATUS_BUSY, 3, false), Ok(false)));
    assert!(matches!(status_step(STATUS_BUSY, 3, true), Err(SdkError::Timeout { cmd: 3 })));
}

#[test]
fn command_is_posted_arguments_first() {
    assert_eq!(
        command_writes(MAILBOX_BASE, CMD_SET_GPIO, 5, 1),
        vec![(0x2000_0010, 5), (0x2000_0014, 1), (0x2000_000C, CMD_SET_GPIO)]
    );
    assert_eq!(next_seq(41), 42);
    assert_eq!(next_seq(u32::MAX), 0);
}

#[test]
fn rx_poll_sentinel_means_no_byte() {
    assert_eq!(rx_byte(RX_NONE), None);
    assert_eq!(rx_byte(0x42), Some(0x42));
}

#[test]
fn pins_encode_port_index_then_number() {
    assert_eq!(nucleus::sdk::encode_pin(nucleus::db::Port::A, 5), 5);
    assert_eq!(nucleus::sdk::encode_pin(nucleus::db::Port::C, 13), (2 << 8) | 13);
}
