//! The device test-agent's RAM mailbox protocol (v1): addresses, field
//! offsets, status and command ids, the argument encoding, and the errors a
//! host-side client reports.

use vstd::prelude::*;
use crate::db::{port_index, Port};
use crate::hil::{hil_error_message, HilError};
use crate::text::{dec_digits, u64_to_string};

verus! {

/// Mailbox base address: the start of SRAM.
pub const MAILBOX_BASE: u32 = 0x2000_0000;

/// `'NTAg'` little-endian: the agent writes it once initialized.
pub const MAGIC: u32 = 0x4E54_4167;

pub const PROTO_VERSION: u32 = 1;

pub const OFF_MAGIC: u32 = 0x00;
pub const OFF_VERSION: u32 = 0x04;
pub const OFF_SEQ: u32 = 0x08;
pub const OFF_CMD: u32 = 0x0C;
pub const OFF_ARG0: u32 = 0x10;
pub const OFF_ARG1: u32 = 0x14;
pub const OFF_STATUS: u32 = 0x18;
pub const OFF_RESP: u32 = 0x1C;

pub const STATUS_IDLE: u32 = 0;
pub const STATUS_BUSY: u32 = 1;
pub const STATUS_DONE: u32 = 2;
pub const STATUS_ERR: u32 = 3;

pub const CMD_PING: u32 = 0;
pub const CMD_SET_GPIO: u32 = 1;
pub const CMD_READ_GPIO: u32 = 2;
pub const CMD_READ_REG: u32 = 3;
pub const CMD_UART_TX: u32 = 4;
pub const CMD_UART_RX_POLL: u32 = 5;

/// The `UART_RX_POLL` response meaning "no byte available".
pub const RX_NONE: u32 = 0xFFFF_FFFF;

/// Encode a GPIO port and pin into a command argument:
/// `(port_index << 8) | pin`.
pub fn encode_pin(port: Port, pin: u8) -> (a: u32)
    ensures
        a == port_index(port) * 256 + pin,
{
    let p = port.index() as u32;
    let q = pin as u32;
    assert((p << 8u32) | q == p * 256 + q) by (bit_vector)
        requires
            p < 8,
            q < 256,
    ;
    (p << 8) | q
}

/// Errors talking to the device test-agent.
#[derive(Debug)]
pub enum SdkError {
    Hil(HilError),
    BadMagic(u32),
    VersionMismatch { found: u32, expected: u32 },
    AgentError { cmd: u32 },
    Timeout { cmd: u32 },
}

/// The `k` low-order hex digits of `n`, most significant first, lowercase.
pub open spec fn hex_digits(n: nat, k: nat) -> Seq<char>
    decreases k,
{
    if k == 0 {
        Seq::empty()
    } else {
        hex_digits(n / 16, (k - 1) as nat).push(crate::ledger::hex_digit(n % 16))
    }
}

/// The message of an agent error; a backend error's carries the backend's
/// message when that is the library's own.
pub open spec fn sdk_error_message(e: SdkError) -> Option<Seq<char>> {
    match e {
        SdkError::Hil(h) => match hil_error_message(h) {
            Some(m) => Some("backend error: "@ + m),
            None => None,
        },
        SdkError::BadMagic(m) => Some("mailbox magic mismatch: got 0x"@ + hex_digits(m as nat, 8)),
        SdkError::VersionMismatch { found, expected } => Some("agent protocol v"@ + dec_digits(found as nat)
            + ", SDK expects v"@ + dec_digits(expected as nat)),
        SdkError::AgentError { cmd } => Some("agent reported error for command "@ + dec_digits(cmd as nat)),
        SdkError::Timeout { cmd } => Some("agent did not complete command "@ + dec_digits(cmd as nat) + " in time"@),
    }
}

fn hex_fixed(n: u32, k: u32) -> (s: String)
    ensures
        s@ == hex_digits(n as nat, k as nat),
    decreases k,
{
    if k == 0 {
        String::new()
    } else {
        let mut s = hex_fixed(n / 16, k - 1);
        s.append(hex_digit_text((n % 16) as u8));
        s
    }
}

fn hex_digit_text(d: u8) -> (s: &'static str)
    requires
        d < 16,
    ensures
        s@ == seq![crate::ledger::hex_digit(d as nat)],
{
    crate::ledger::hex_digit_str(d)
}

impl SdkError {
    /// The human-readable message.
    pub fn to_string(&self) -> (s: String)
        ensures
            sdk_error_message(*self) matches Some(m) ==> s@ == m,
    {
        match self {
            SdkError::Hil(e) => {
                let mut s = String::from_str("backend error: ");
                s.append(e.to_string().as_str());
                s
            },
            SdkError::BadMagic(m) => {
                let mut s = String::from_str("mailbox magic mismatch: got 0x");
                s.append(hex_fixed(*m, 8).as_str());
                s
            },
            SdkError::VersionMismatch { found, expected } => {
                let mut s = String::from_str("agent protocol v");
                s.append(u64_to_string(*found as u64).as_str());
                s.append(", SDK expects v");
                s.append(u64_to_string(*expected as u64).as_str());
                s
            },
            SdkError::AgentError { cmd } => {
                let mut s = String::from_str("agent reported error for command ");
                s.append(u64_to_string(*cmd as u64).as_str());
                s
            },
            SdkError::Timeout { cmd } => {
                let mut s = String::from_str("agent did not complete command ");
                s.append(u64_to_string(*cmd as u64).as_str());
                s.append(" in time");
                s
            },
        }
    }
}


/// What a magic-word reading means while connecting: the agent is up
/// (`Ok(true)`), still booting (`Ok(false)`: read again after a pause), or
/// the mailbox is not the agent's. Zero is a boot race until the deadline
/// has passed; any other wrong value fails at once.
pub fn magic_step(magic: u32, past_deadline: bool) -> (r: Result<bool, SdkError>)
    ensures
        magic == MAGIC ==> r matches Ok(true),
        magic != MAGIC && (magic != 0 || past_deadline) ==> (r matches Err(SdkError::BadMagic(m)) && m == magic),
        magic == 0 && !past_deadline ==> r matches Ok(false),
{
    if magic == MAGIC {
        Ok(true)
    } else if magic != 0 || past_deadline {
        Err(SdkError::BadMagic(magic))
    } else {
        Ok(false)
    }
}

/// The agent's protocol version, accepted only when it is the SDK's.
pub fn version_check(version: u32) -> (r: Result<u32, SdkError>)
    ensures
        version == PROTO_VERSION ==> (r matches Ok(v) && v == version),
        version != PROTO_VERSION ==> (r matches Err(SdkError::VersionMismatch { found, expected }) && found == version
            && expected == PROTO_VERSION),
{
    if version == PROTO_VERSION {
        Ok(version)
    } else {
        Err(SdkError::VersionMismatch { found: version, expected: PROTO_VERSION })
    }
}

/// What a status reading means while command `cmd` runs: done (`Ok(true)`:
/// read the response), still busy (`Ok(false)`: poll again after a pause),
/// the agent's error, or a timeout once the deadline has passed.
pub fn status_step(status: u32, cmd: u32, past_deadline: bool) -> (r: Result<bool, SdkError>)
    ensures
        status == STATUS_DONE ==> r matches Ok(true),
        status == STATUS_ERR ==> (r matches Err(SdkError::AgentError { cmd: c }) && c == cmd),
        status != STATUS_DONE && status != STATUS_ERR && past_deadline ==> (r matches Err(SdkError::Timeout { cmd: c })
            && c == cmd),
        status != STATUS_DONE && status != STATUS_ERR && !past_deadline ==> r matches Ok(false),
{
    if status == STATUS_DONE {
        Ok(true)
    } else if status == STATUS_ERR {
        Err(SdkError::AgentError { cmd })
    } else if past_deadline {
        Err(SdkError::Timeout { cmd })
    } else {
        Ok(false)
    }
}

/// The writes that post command `cmd` to the mailbox at `base`, in order:
/// both arguments, then the command id. The sequence bump and the `BUSY`
/// status follow them.
pub fn command_writes(base: u32, cmd: u32, arg0: u32, arg1: u32) -> (r: Vec<(u32, u32)>)
    requires
        base + OFF_RESP <= u32::MAX,
    ensures
        r@ == seq![((base + OFF_ARG0) as u32, arg0), ((base + OFF_ARG1) as u32, arg1), ((base + OFF_CMD) as u32, cmd)],
{
    vec![(base + OFF_ARG0, arg0), (base + OFF_ARG1, arg1), (base + OFF_CMD, cmd)]
}

/// The next command sequence number, wrapping at 2^32.
pub fn next_seq(seq: u32) -> (r: u32)
    ensures
        r == (seq + 1) % 0x1_0000_0000,
{
    if seq == u32::MAX {
        0
    } else {
        seq + 1
    }
}

/// The byte a `UART_RX_POLL` response carries, if any.
pub fn rx_byte(resp: u32) -> (r: Option<u8>)
    ensures
        resp == RX_NONE ==> r is None,
        resp != RX_NONE ==> r == Some((resp % 256) as u8),
{
    if resp == RX_NONE {
        None
    } else {
        Some((resp % 256) as u8)
    }
}

} // verus!
