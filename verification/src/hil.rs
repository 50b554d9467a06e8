//! The hardware-in-the-loop vocabulary: the GPIO memory map, the values both
//! backends (QEMU and a real board) pass around, test outcomes, and the
//! backend-selection rules the runner applies.

use vstd::prelude::*;
use crate::compiler::solver::Conflict;
use crate::compiler::BackendSelect;
use crate::db::{port_index, Port};
use crate::text::{owned, u64_to_string, dec_digits};

pub mod gdb;
pub mod lockstep;
pub mod observe;
pub mod preflight;
pub mod session;

verus! {

/// `std::path::PathBuf`, carried through opaquely.
#[verifier::external_type_specification]
#[verifier::external_body]
pub struct ExPathBuf(std::path::PathBuf);

/// `std::io::Error`, carried through opaquely.
#[verifier::external_type_specification]
#[verifier::external_body]
pub struct ExIoError(std::io::Error);

/// Offset of the Input Data Register from a GPIOx base address.
pub const IDR_OFFSET: u32 = 0x10;

/// Offset of the Output Data Register from a GPIOx base address.
pub const ODR_OFFSET: u32 = 0x14;

/// The AHB1 base address of a port's GPIO block: `0x4002_0000` for GPIOA,
/// then every `0x400`.
pub open spec fn gpio_base_spec(port: Port) -> u32 {
    (0x4002_0000 + 0x400 * port_index(port)) as u32
}

/// The AHB1 base address of `port`'s GPIO peripheral block (the same on the
/// F446RE, the F411RE and QEMU's F405 model).
pub fn gpio_base(port: Port) -> (a: u32)
    ensures
        a == gpio_base_spec(port),
{
    match port {
        Port::A => 0x4002_0000,
        Port::B => 0x4002_0400,
        Port::C => 0x4002_0800,
        Port::D => 0x4002_0C00,
        Port::E => 0x4002_1000,
        Port::F => 0x4002_1400,
        Port::G => 0x4002_1800,
        Port::H => 0x4002_1C00,
    }
}

/// The address of `port`'s input data register.
pub fn idr_address(port: Port) -> (a: u32)
    ensures
        a == gpio_base_spec(port) + IDR_OFFSET,
{
    gpio_base(port) + IDR_OFFSET
}

/// Which concrete backend produced a result.
#[derive(Debug, Clone, Copy, PartialEq, Eq, Structural)]
pub enum BackendKind {
    Qemu,
    Hardware,
}

/// Build artifacts a backend needs: the ELF (QEMU) and the raw binary
/// (hardware flashing).
#[derive(Debug)]
pub struct FirmwareArtifact {
    pub elf: std::path::PathBuf,
    pub bin: std::path::PathBuf,
}

/// One decoded ITM packet surfaced to a test.
#[derive(Debug, Clone, PartialEq, Eq)]
pub struct ItmEvent {
    pub port: u8,
    pub data: Vec<u8>,
}

/// What a sample's readings mean: a pin's level, or whether a register
/// changed since the previous poll.
#[derive(Debug, Clone, Copy, PartialEq, Eq)]
pub enum SampleTarget {
    Pin { port: Port, pin_num: u8 },
    RegisterChanged { peripheral: &'static str, offset: u32 },
}

/// Readings taken over a window.
#[derive(Debug, Clone, PartialEq, Eq)]
pub struct Sample {
    pub target: SampleTarget,
    pub readings: Vec<(std::time::Duration, bool)>,
}

/// Everything that can go wrong talking to a backend.
#[derive(Debug)]
pub enum HilError {
    /// The pre-flight gate rejected the config.
    Preflight(Vec<Conflict>),
    /// The backend's required tool is not on `PATH`.
    ToolMissing(String),
    Io(std::io::Error),
    /// A malformed reply on the wire.
    Protocol(String),
    /// The backend does not model this peripheral.
    NotObservable { peripheral: String },
}

/// The `Display` rendering of an I/O error.
///
/// Calls `<std::io::Error as Display>::fmt` through `to_string`; nothing is
/// claimed of the text, which depends on the operating system's message.
#[verifier::external_body]
fn io_error_text(e: &std::io::Error) -> (s: String) {
    e.to_string()
}

/// The message of a backend error, for the variants whose text is the
/// library's own.
pub open spec fn hil_error_message(e: HilError) -> Option<Seq<char>> {
    match e {
        HilError::Preflight(c) => Some("config has "@ + dec_digits(c@.len()) + " unresolved conflict(s)"@),
        HilError::ToolMissing(t) => Some("required tool not found: "@ + t@),
        HilError::Io(_) => None,
        HilError::Protocol(m) => Some("protocol error: "@ + m@),
        HilError::NotObservable { peripheral } => Some("peripheral not observable on this backend: "@ + peripheral@),
    }
}

impl HilError {
    /// The human-readable message; an I/O error's reads `I/O error: ` and
    /// the error's own text.
    pub fn to_string(&self) -> (s: String)
        ensures
            hil_error_message(*self) matches Some(m) ==> s@ == m,
            self is Io ==> "I/O error: "@.len() <= s@.len() && s@.take(11) == "I/O error: "@,
    {
        match self {
            HilError::Preflight(c) => {
                let mut s = String::from_str("config has ");
                s.append(u64_to_string(c.len() as u64).as_str());
                s.append(" unresolved conflict(s)");
                s
            },
            HilError::ToolMissing(t) => {
                let mut s = String::from_str("required tool not found: ");
                s.append(t.as_str());
                s
            },
            HilError::Io(e) => {
                let mut s = String::from_str("I/O error: ");
                proof {
                    reveal_strlit("I/O error: ");
                }
                let ghost prefix = s@;
                s.append(io_error_text(e).as_str());
                assert(s@.take(11) =~= prefix);
                s
            },
            HilError::Protocol(m) => {
                let mut s = String::from_str("protocol error: ");
                s.append(m.as_str());
                s
            },
            HilError::NotObservable { peripheral } => {
                let mut s = String::from_str("peripheral not observable on this backend: ");
                s.append(peripheral.as_str());
                s
            },
        }
    }
}

/// The outcome of one backend's run.
#[derive(Debug, Clone, PartialEq, Eq)]
pub enum RunStatus {
    Completed,
    /// The backend's tool or hardware was not available: not a failure.
    Skipped { reason: String },
    Failed { error: String },
}

/// Wall-clock timing of one run.
#[derive(Debug, Clone, Copy, PartialEq, Eq)]
pub struct RunTiming {
    pub total: std::time::Duration,
}

/// What one backend produced for one run.
#[derive(Debug, Clone, PartialEq, Eq)]
pub struct RunResult {
    pub backend: BackendKind,
    pub status: RunStatus,
    pub log: Vec<String>,
    pub traces: Vec<ItmEvent>,
    pub timing: RunTiming,
}

/// The result of a backend whose start failed: `Failed` with the error's
/// message, no log, no traces.
pub fn start_failure(kind: BackendKind, err: &HilError, timing: RunTiming) -> (r: RunResult)
    ensures
        r.backend == kind,
        r.status matches RunStatus::Failed { error } && (hil_error_message(*err) matches Some(m) ==> error@ == m),
        r.log@.len() == 0,
        r.traces@.len() == 0,
        r.timing == timing,
{
    RunResult {
        backend: kind,
        status: RunStatus::Failed { error: err.to_string() },
        log: Vec::new(),
        traces: Vec::new(),
        timing,
    }
}

/// A test's verdict on one backend.
#[derive(Debug, Clone, Copy, PartialEq, Eq, Structural)]
pub enum TestStatus {
    Passed,
    Failed,
    /// The backend does not apply to this test, or cannot observe what it
    /// needs: not a failure.
    Skipped,
}

/// The outcome of one test on one backend.
#[derive(Debug, Clone, PartialEq, Eq)]
pub struct TestOutcome {
    pub name: String,
    pub status: TestStatus,
    pub detail: String,
}

/// The outcome of a test whose observation failed: a peripheral the backend
/// cannot observe is a skip, every other error a failure, with the error's
/// message as the detail.
pub fn outcome_from_error(name: &str, err: HilError) -> (o: TestOutcome)
    ensures
        o.name@ == name@,
        o.status == (if err is NotObservable { TestStatus::Skipped } else { TestStatus::Failed }),
        hil_error_message(err) matches Some(m) ==> o.detail@ == m,
{
    let detail = err.to_string();
    match err {
        HilError::NotObservable { .. } => TestOutcome { name: owned(name), status: TestStatus::Skipped, detail },
        _ => TestOutcome { name: owned(name), status: TestStatus::Failed, detail },
    }
}

/// Whether a test's backend selection applies to `kind`.
pub open spec fn selects(select: BackendSelect, kind: BackendKind) -> bool {
    match select {
        BackendSelect::Both => true,
        BackendSelect::Qemu => kind == BackendKind::Qemu,
        BackendSelect::Hardware => kind == BackendKind::Hardware,
    }
}

/// Does `select` apply to `kind`? `Both` always does.
pub fn backend_selected(select: BackendSelect, kind: BackendKind) -> (r: bool)
    ensures
        r == selects(select, kind),
{
    match select {
        BackendSelect::Both => true,
        BackendSelect::Qemu => kind == BackendKind::Qemu,
        BackendSelect::Hardware => kind == BackendKind::Hardware,
    }
}

/// The outcome recorded for a test that does not select this backend.
pub fn not_selected(name: &str) -> (o: TestOutcome)
    ensures
        o.name@ == name@,
        o.status == TestStatus::Skipped,
        o.detail@ == "not selected for this backend"@,
{
    TestOutcome { name: owned(name), status: TestStatus::Skipped, detail: owned("not selected for this backend") }
}

} // verus!
