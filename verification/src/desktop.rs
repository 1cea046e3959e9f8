//! The desktop application's rules: connection and send inputs, the settings form, the
//! monitor's read decisions, and the result of a Sequence run as the window shows it.
use vstd::prelude::*;

use crate::cli::view_of_string;
use crate::config::{DataBits, FlowControl, Parity, SerialSettings, StopBits};
use crate::document::{
    data_bits_from_wire, flow_control_from_wire, parity_from_wire, stop_bits_from_wire,
};
use crate::error::{error_text, Error};
use crate::discovery::{kind_name, port_type_name, PortInfo, PortType};
use crate::hex::{decode_hex, decode_hex_spec, HexError};
use crate::json::text_equals;
use crate::outside::{duration_as_millis, duration_from_millis, duration_nanos};
use crate::sequence::{Sequence, SequenceSerialConfig};
use crate::step::{Direction, RunError, RunReport, StepOutcome};
use crate::transport::bytes_to_vec;
use vstd::utf8::encode_utf8;

verus! {

/// How long the monitor waits for a command before it polls the line again, in
/// milliseconds.
pub const POLL_INTERVAL_MS: u64 = 15;

/// The most bytes the monitor reads at once.
pub const READ_CHUNK: usize = 4096;

#[derive(Clone, Copy, Debug, PartialEq, Eq, Structural)]
pub enum Mode {
    Live,
    Simulation,
}

/// What the window is told about the connection.
#[derive(Clone, Debug)]
pub enum Event {
    Connected,
    Data { direction: &'static str, bytes: Vec<u8> },
    Disconnected,
    ConnectionError { message: String },
}

#[derive(Debug)]
pub struct StepResultDto {
    pub step_id: String,
    pub kind: &'static str,
    pub bytes_written: Option<usize>,
    pub requested_duration_ms: Option<u128>,
    pub bytes: Option<Vec<u8>>,
    pub completed_iterations: Option<usize>,
}

#[derive(Debug)]
pub struct TranscriptDto {
    pub step_id: String,
    pub direction: &'static str,
    pub bytes: Vec<u8>,
}

#[derive(Debug)]
pub struct RunResult {
    pub status: &'static str,
    pub failing_step_id: Option<String>,
    pub error: Option<String>,
    pub partial_bytes: Option<Vec<u8>>,
    pub step_results: Vec<StepResultDto>,
    pub transcript: Vec<TranscriptDto>,
}

pub open spec fn outcome_kind(outcome: StepOutcome) -> Seq<char> {
    match outcome {
        StepOutcome::SendText { .. } => "send_text"@,
        StepOutcome::SendBytes { .. } => "send_bytes"@,
        StepOutcome::Wait { .. } => "wait"@,
        StepOutcome::Read { .. } => "read"@,
        StepOutcome::ReadUntil { .. } => "read_until"@,
        StepOutcome::Repeat { .. } => "repeat"@,
    }
}

pub open spec fn bytes_view(bytes: Option<Vec<u8>>) -> Option<Seq<u8>> {
    match bytes {
        Some(b) => Some(b@),
        None => None,
    }
}

/// A step result as the window shows it: its kind, and only the field that kind has.
pub open spec fn dto_shows(dto: StepResultDto, step_id: Seq<char>, outcome: StepOutcome) -> bool {
    &&& dto.step_id@ == step_id
    &&& dto.kind@ == outcome_kind(outcome)
    &&& dto.bytes_written == match outcome {
        StepOutcome::SendText { bytes_written } | StepOutcome::SendBytes { bytes_written } => Some(
            bytes_written,
        ),
        _ => None::<usize>,
    }
    &&& dto.requested_duration_ms == match outcome {
        StepOutcome::Wait { requested_duration } => Some(
            (duration_nanos(requested_duration) / 1_000_000) as u128,
        ),
        _ => None::<u128>,
    }
    &&& bytes_view(dto.bytes) == match outcome {
        StepOutcome::Read { bytes } | StepOutcome::ReadUntil { bytes } => Some(bytes@),
        _ => None::<Seq<u8>>,
    }
    &&& dto.completed_iterations == match outcome {
        StepOutcome::Repeat { completed_iterations } => Some(completed_iterations),
        _ => None::<usize>,
    }
}

pub open spec fn direction_text(direction: Direction) -> Seq<char> {
    match direction {
        Direction::Tx => "tx"@,
        Direction::Rx => "rx"@,
    }
}

/// The result of a run as the window shows it: success, or the failing step with the
/// serial error's text and any bytes received before it; then every completed step's
/// result and the transcript, in order.
pub open spec fn run_result_shows(
    result: RunResult,
    report: RunReport,
    failure: Option<(Seq<char>, Error)>,
) -> bool {
    &&& match failure {
        None => {
            &&& result.status@ == "success"@
            &&& result.failing_step_id is None
            &&& result.error is None
            &&& result.partial_bytes is None
        },
        Some((id, error)) => {
            &&& result.status@ == "failed"@
            &&& result.failing_step_id matches Some(f) && f@ == id
            &&& result.error matches Some(text) && error_text(error).is_prefix_of(text@)
            &&& !(error is ReadFailed || error is WriteFailed || error is FlushFailed) ==> (
            result.error matches Some(text) && text@ == error_text(error))
            &&& bytes_view(result.partial_bytes) == error.spec_partial()
        },
    }
    &&& result.step_results@.len() == report.step_results@.len()
    &&& forall|i: int|
        0 <= i < result.step_results@.len() ==> #[trigger] dto_shows(
            result.step_results@[i],
            report.step_results@[i].step_id@,
            report.step_results@[i].outcome,
        )
    &&& result.transcript@.len() == report.transcript.entries@.len()
    &&& forall|i: int|
        0 <= i < result.transcript@.len() ==> {
            let dto = #[trigger] result.transcript@[i];
            let entry = report.transcript.entries@[i];
            &&& dto.step_id@ == entry.step_id@
            &&& dto.direction@ == direction_text(entry.direction)
            &&& dto.bytes@ == entry.bytes@
        }
}

fn copy_bytes(bytes: &Vec<u8>) -> (copy: Vec<u8>)
    ensures
        copy@ == bytes@,
{
    bytes_to_vec(bytes.as_slice())
}

impl RunResult {
    /// What the window shows of a run's report, and of the step that failed, if one did.
    pub fn from_report(report: RunReport, failure: Option<(String, Error)>) -> (result: Self)
        ensures
            run_result_shows(
                result,
                report,
                match failure {
                    Some((id, error)) => Some((id@, error)),
                    None => None,
                },
            ),
    {
        let (status, failing_step_id, error, partial_bytes) = match failure {
            Some((id, error)) => {
                let text = error.message();
                let partial = match error.partial() {
                    Some(bytes) => Some(bytes_to_vec(bytes)),
                    None => None,
                };
                ("failed", Some(id), Some(text), partial)
            },
            None => ("success", None, None, None),
        };
        let mut step_results: Vec<StepResultDto> = Vec::new();
        let mut i: usize = 0;
        while i < report.step_results.len()
            invariant
                i <= report.step_results@.len(),
                step_results@.len() == i,
                forall|j: int|
                    0 <= j < i ==> #[trigger] dto_shows(
                        step_results@[j],
                        report.step_results@[j].step_id@,
                        report.step_results@[j].outcome,
                    ),
            decreases report.step_results@.len() - i,
        {
            let result = &report.step_results[i];
            let mut dto = StepResultDto {
                step_id: String::from_str(result.step_id.as_str()),
                kind: "",
                bytes_written: None,
                requested_duration_ms: None,
                bytes: None,
                completed_iterations: None,
            };
            match &result.outcome {
                StepOutcome::SendText { bytes_written } => {
                    dto.kind = "send_text";
                    dto.bytes_written = Some(*bytes_written);
                },
                StepOutcome::SendBytes { bytes_written } => {
                    dto.kind = "send_bytes";
                    dto.bytes_written = Some(*bytes_written);
                },
                StepOutcome::Wait { requested_duration } => {
                    dto.kind = "wait";
                    dto.requested_duration_ms = Some(duration_as_millis(requested_duration));
                },
                StepOutcome::Read { bytes } => {
                    dto.kind = "read";
                    dto.bytes = Some(copy_bytes(bytes));
                },
                StepOutcome::ReadUntil { bytes } => {
                    dto.kind = "read_until";
                    dto.bytes = Some(copy_bytes(bytes));
                },
                StepOutcome::Repeat { completed_iterations } => {
                    dto.kind = "repeat";
                    dto.completed_iterations = Some(*completed_iterations);
                },
            }
            step_results.push(dto);
            i = i + 1;
        }
        let entries = &report.transcript.entries;
        let mut transcript: Vec<TranscriptDto> = Vec::new();
        let mut k: usize = 0;
        while k < entries.len()
            invariant
                k <= entries@.len(),
                transcript@.len() == k,
                *entries == report.transcript.entries,
                forall|j: int|
                    0 <= j < k ==> {
                        let dto = #[trigger] transcript@[j];
                        let entry = entries@[j];
                        &&& dto.step_id@ == entry.step_id@
                        &&& dto.direction@ == direction_text(entry.direction)
                        &&& dto.bytes@ == entry.bytes@
                    },
            decreases entries@.len() - k,
        {
            let entry = &entries[k];
            let direction = match entry.direction {
                Direction::Tx => "tx",
                Direction::Rx => "rx",
            };
            transcript.push(
                TranscriptDto {
                    step_id: String::from_str(entry.step_id.as_str()),
                    direction,
                    bytes: copy_bytes(&entry.bytes),
                },
            );
            k = k + 1;
        }
        RunResult { status, failing_step_id, error, partial_bytes, step_results, transcript }
    }
}

/// What a Sequence run gives the window: the result when the run completed or a step
/// failed, or the validation error's text.
pub fn run_outcome(outcome: Result<RunReport, RunError>) -> (result: Result<RunResult, String>)
    ensures
        match outcome {
            Ok(report) => result matches Ok(r) && run_result_shows(r, report, None),
            Err(RunError::Execution(failure)) => result matches Ok(r) && run_result_shows(
                r,
                failure.report,
                Some((failure.step_id@, failure.error)),
            ),
            Err(RunError::Validation(error)) => result matches Err(text) && text@
                == error.spec_message(),
        },
{
    match outcome {
        Ok(report) => Ok(RunResult::from_report(report, None)),
        Err(RunError::Execution(failure)) => {
            let id = String::from_str(failure.step_id.as_str());
            Ok(RunResult::from_report(failure.report, Some((id, failure.error))))
        },
        Err(RunError::Validation(error)) => Err(error.message()),
    }
}

/// The refusal of a run whose Sequence was made for other line settings.
pub fn mismatched_sequence() -> (message: String)
    ensures
        message@ == "Sequence serial settings do not match the current connection"@,
{
    String::from_str("Sequence serial settings do not match the current connection")
}

/// Whether a Sequence may run on the connection: its line settings must be exactly the
/// connection's; otherwise it is refused without running.
pub fn run_request(sequence: &Sequence, settings: &SerialSettings) -> (verdict: Result<(), String>)
    ensures
        verdict is Ok <==> sequence.serial.settings_match(*settings),
        verdict matches Err(message) ==> message@
            == "Sequence serial settings do not match the current connection"@,
{
    if sequence.serial.matches_serial_settings(settings) {
        Ok(())
    } else {
        Err(mismatched_sequence())
    }
}

/// What the connection's owner does next.
#[derive(Debug)]
pub enum MonitorAction {
    /// Handle the command that is waiting.
    Handle,
    /// Wait this long for a command, then look again.
    Wait { millis: u64 },
    /// Read this many bytes from the session.
    Read { size: usize },
    /// Stop watching the line, with the error's text if a failure stopped it.
    Stop { message: Option<String> },
}

/// Decides the owner's next move: a waiting command goes first; a closed command channel
/// ends the connection; otherwise the pending byte count decides: nothing pending waits
/// one poll interval, pending bytes are read up to one chunk, and an error ends the
/// connection with its text.
pub fn monitor_step(
    command_waiting: bool,
    channel_open: bool,
    pending: Option<Result<usize, Error>>,
) -> (action: MonitorAction)
    ensures
        command_waiting ==> action is Handle,
        !command_waiting && !channel_open ==> action matches MonitorAction::Stop { message: None },
        !command_waiting && channel_open ==> match pending {
            None => action matches MonitorAction::Wait { millis } && millis == POLL_INTERVAL_MS,
            Some(Ok(count)) => if count == 0 {
                action matches MonitorAction::Wait { millis } && millis == POLL_INTERVAL_MS
            } else {
                action matches MonitorAction::Read { size } && size == if count < READ_CHUNK {
                    count
                } else {
                    READ_CHUNK
                }
            },
            Some(Err(error)) => {
                &&& action matches MonitorAction::Stop { message: Some(m) }
                &&& error_text(error).is_prefix_of(m@)
                &&& !(error is ReadFailed || error is WriteFailed || error is FlushFailed) ==> (
                action matches MonitorAction::Stop { message: Some(m) } && m@ == error_text(error))
            },
        },
{
    if command_waiting {
        return MonitorAction::Handle;
    }
    if !channel_open {
        return MonitorAction::Stop { message: None };
    }
    match pending {
        None => MonitorAction::Wait { millis: POLL_INTERVAL_MS },
        Some(Ok(count)) => if count == 0 {
            MonitorAction::Wait { millis: POLL_INTERVAL_MS }
        } else {
            MonitorAction::Read { size: read_size(count) }
        },
        Some(Err(error)) => MonitorAction::Stop { message: Some(error.message()) },
    }
}

/// The settings form.
#[derive(Debug)]
pub struct SettingsDto {
    pub port: String,
    pub baud_rate: u32,
    pub data_bits: u8,
    pub parity: String,
    pub stop_bits: u8,
    pub flow_control: String,
    pub timeout_ms: u64,
}

/// The first field of the form that names no known value.
pub open spec fn form_issue(dto: SettingsDto) -> Option<Seq<char>> {
    if data_bits_from_wire(dto.data_bits) is None {
        Some("Data bits must be 5, 6, 7, or 8"@)
    } else if parity_from_wire(dto.parity@) is None {
        Some("Invalid parity"@)
    } else if stop_bits_from_wire(dto.stop_bits) is None {
        Some("Stop bits must be 1 or 2"@)
    } else if flow_control_from_wire(dto.flow_control@) is None {
        Some("Invalid flow control"@)
    } else {
        None
    }
}

impl SettingsDto {
    /// The line settings the form names, validated.
    pub fn into_settings(self) -> (result: Result<SerialSettings, String>)
        ensures
            match form_issue(self) {
                Some(message) => result matches Err(m) && m@ == message,
                None => match result {
                    Ok(settings) => {
                        &&& settings.is_valid()
                        &&& settings.port@ == self.port@
                        &&& settings.baud_rate == self.baud_rate
                        &&& data_bits_from_wire(self.data_bits) == Some(settings.data_bits)
                        &&& parity_from_wire(self.parity@) == Some(settings.parity)
                        &&& stop_bits_from_wire(self.stop_bits) == Some(settings.stop_bits)
                        &&& flow_control_from_wire(self.flow_control@) == Some(settings.flow_control)
                        &&& duration_nanos(settings.timeout) == self.timeout_ms * 1_000_000
                    },
                    Err(m) => {
                        &&& crate::config::port_is_blank(self.port@) ==> m@ == error_text(
                            Error::InvalidConfiguration("port name must not be empty"),
                        )
                        &&& !crate::config::port_is_blank(self.port@) ==> m@ == error_text(
                            Error::InvalidConfiguration("baud rate must be nonzero"),
                        ) && self.baud_rate == 0
                    },
                },
            },
    {
        let data_bits = if self.data_bits == 5 {
            DataBits::Five
        } else if self.data_bits == 6 {
            DataBits::Six
        } else if self.data_bits == 7 {
            DataBits::Seven
        } else if self.data_bits == 8 {
            DataBits::Eight
        } else {
            return Err(String::from_str("Data bits must be 5, 6, 7, or 8"));
        };
        let parity = if text_equals(self.parity.as_str(), "none") {
            Parity::NoParity
        } else if text_equals(self.parity.as_str(), "odd") {
            Parity::Odd
        } else if text_equals(self.parity.as_str(), "even") {
            Parity::Even
        } else {
            return Err(String::from_str("Invalid parity"));
        };
        let stop_bits = if self.stop_bits == 1 {
            StopBits::One
        } else if self.stop_bits == 2 {
            StopBits::Two
        } else {
            return Err(String::from_str("Stop bits must be 1 or 2"));
        };
        let flow_control = if text_equals(self.flow_control.as_str(), "none") {
            FlowControl::NoFlowControl
        } else if text_equals(self.flow_control.as_str(), "software") {
            FlowControl::Software
        } else if text_equals(self.flow_control.as_str(), "hardware") {
            FlowControl::Hardware
        } else {
            return Err(String::from_str("Invalid flow control"));
        };
        let settings = SerialSettings {
            port: self.port,
            baud_rate: self.baud_rate,
            data_bits,
            parity,
            stop_bits,
            flow_control,
            timeout: duration_from_millis(self.timeout_ms),
        };
        match settings.validate() {
            Ok(()) => {
                assert(!crate::config::port_is_blank(settings.port@));
                Ok(settings)
            },
            Err(error) => Err(error.message()),
        }
    }
}

pub open spec fn mode_named(name: Seq<char>) -> Option<Mode> {
    if name == "live"@ {
        Some(Mode::Live)
    } else if name == "simulation"@ {
        Some(Mode::Simulation)
    } else {
        None
    }
}

/// Reads a connection mode, and sets the port of a simulated connection to
/// `simulation`.
pub fn connection_request(mode: &str, form: SettingsDto) -> (result: Result<(Mode, SettingsDto), String>)
    ensures
        match mode_named(mode@) {
            None => result matches Err(m) && m@ == "Invalid connection mode"@,
            Some(m) => result matches Ok((chosen, dto)) && chosen == m && dto.port@ == (
            if m == Mode::Simulation {
                "simulation"@
            } else {
                form.port@
            }) && dto.baud_rate == form.baud_rate && dto.data_bits == form.data_bits
                && dto.parity@ == form.parity@ && dto.stop_bits == form.stop_bits
                && dto.flow_control@ == form.flow_control@ && dto.timeout_ms == form.timeout_ms,
        },
{
    let chosen = if text_equals(mode, "live") {
        Mode::Live
    } else if text_equals(mode, "simulation") {
        Mode::Simulation
    } else {
        return Err(String::from_str("Invalid connection mode"));
    };
    let mut form = form;
    if chosen == Mode::Simulation {
        form.port = String::from_str("simulation");
    }
    Ok((chosen, form))
}

/// What the desktop's hex input gives: ASCII whitespace ignored, a nonempty even number
/// of hex digits.
pub open spec fn desktop_hex_spec(text: Seq<char>) -> Result<Seq<u8>, Seq<char>> {
    let digits = crate::hex::strip_ascii_whitespace(encode_utf8(text));
    if digits.len() == 0 || digits.len() % 2 != 0 {
        Err("Hex input must contain a nonempty, even number of digits"@)
    } else if !crate::hex::all_hex_digits(digits) {
        Err("Hex input contains invalid characters"@)
    } else {
        Ok(crate::hex::decode_pairs(digits))
    }
}

/// Reads hex input from the send box.
pub fn parse_hex(input: &str) -> (result: Result<Vec<u8>, String>)
    ensures
        match desktop_hex_spec(input@) {
            Ok(bytes) => result matches Ok(b) && b@ == bytes,
            Err(message) => result matches Err(m) && m@ == message,
        },
{
    match decode_hex(input) {
        Ok(bytes) => {
            if bytes.len() == 0 {
                return Err(String::from_str("Hex input must contain a nonempty, even number of digits"));
            }
            Ok(bytes)
        },
        Err(HexError::OddDigitCount) => Err(
            String::from_str("Hex input must contain a nonempty, even number of digits"),
        ),
        Err(HexError::InvalidDigit) => {
            proof {
                let digits = crate::hex::strip_ascii_whitespace(encode_utf8(input@));
                assert(digits.len() % 2 == 0);
                if digits.len() == 0 {
                    assert(crate::hex::all_hex_digits(digits));
                }
            }
            Err(String::from_str("Hex input contains invalid characters"))
        },
    }
}

/// What the send box gives: text as UTF-8, or hex; never nothing.
pub open spec fn send_input_spec(input: Seq<char>, format: Seq<char>) -> Result<Seq<u8>, Seq<char>> {
    let bytes: Result<Seq<u8>, Seq<char>> = if format == "text"@ {
        Ok(encode_utf8(input))
    } else if format == "hex"@ {
        desktop_hex_spec(input)
    } else {
        Err("Invalid input format"@)
    };
    match bytes {
        Ok(b) => if b.len() == 0 {
            Err("Send data must not be empty"@)
        } else {
            Ok(b)
        },
        Err(m) => Err(m),
    }
}

/// Reads the send box.
pub fn send_input(input: &str, format: &str) -> (result: Result<Vec<u8>, String>)
    ensures
        match send_input_spec(input@, format@) {
            Ok(bytes) => result matches Ok(b) && b@ == bytes,
            Err(message) => result matches Err(m) && m@ == message,
        },
{
    let bytes = if text_equals(format, "text") {
        bytes_to_vec(input.as_bytes())
    } else if text_equals(format, "hex") {
        parse_hex(input)?
    } else {
        return Err(String::from_str("Invalid input format"));
    };
    if bytes.len() == 0 {
        return Err(String::from_str("Send data must not be empty"));
    }
    Ok(bytes)
}

/// How many bytes the monitor reads when `pending` bytes are waiting.
pub fn read_size(pending: usize) -> (size: usize)
    ensures
        size == if pending < READ_CHUNK {
            pending
        } else {
            READ_CHUNK
        },
{
    if pending < READ_CHUNK {
        pending
    } else {
        READ_CHUNK
    }
}

/// What the monitor does after a read.
#[derive(Debug)]
pub enum ReadStep {
    /// Nothing arrived; keep watching.
    Idle,
    /// Bytes arrived; report them.
    Received(usize),
    /// The line failed; report the error and stop.
    Failed(String),
}

/// Decides what a read means: bytes are reported, an empty read or a timeout is
/// nothing, and any other failure ends the connection.
pub fn after_read(outcome: Result<usize, Error>) -> (step: ReadStep)
    ensures
        match outcome {
            Ok(count) => if count > 0 {
                step matches ReadStep::Received(n) && n == count
            } else {
                step is Idle
            },
            Err(error) => if error is Timeout {
                step is Idle
            } else {
                step matches ReadStep::Failed(text) && error_text(error).is_prefix_of(text@)
            },
        },
{
    match outcome {
        Ok(count) => if count > 0 {
            ReadStep::Received(count)
        } else {
            ReadStep::Idle
        },
        Err(Error::Timeout { .. }) => ReadStep::Idle,
        Err(error) => ReadStep::Failed(error.message()),
    }
}

/// A port as the window lists it: name and kind, and for USB ports the IDs and
/// descriptions; other ports have none of these.
#[derive(Debug, Clone, PartialEq, Eq)]
pub struct PortDto {
    pub port_name: String,
    pub kind: &'static str,
    pub vid: Option<u16>,
    pub pid: Option<u16>,
    pub serial_number: Option<String>,
    pub manufacturer: Option<String>,
    pub product: Option<String>,
}

/// `dto` lists `port`.
pub open spec fn dto_lists(dto: PortDto, port: PortInfo) -> bool {
    &&& dto.port_name@ == port.port_name@
    &&& dto.kind@ == port_type_name(port.port_type)
    &&& match port.port_type {
        PortType::Usb(usb) => {
            &&& dto.vid == Some(usb.vid)
            &&& dto.pid == Some(usb.pid)
            &&& view_of_string(dto.serial_number) == view_of_string(usb.serial_number)
            &&& view_of_string(dto.manufacturer) == view_of_string(usb.manufacturer)
            &&& view_of_string(dto.product) == view_of_string(usb.product)
        },
        _ => {
            &&& dto.vid is None
            &&& dto.pid is None
            &&& dto.serial_number is None
            &&& dto.manufacturer is None
            &&& dto.product is None
        },
    }
}

fn copy_text(text: &Option<String>) -> (copy: Option<String>)
    ensures
        view_of_string(copy) == view_of_string(*text),
{
    match text {
        Some(t) => Some(t.clone()),
        None => None,
    }
}

impl PortDto {
    pub fn from_port(port: &PortInfo) -> (dto: PortDto)
        ensures
            dto_lists(dto, *port),
    {
        let kind = kind_name(&port.port_type);
        match &port.port_type {
            PortType::Usb(usb) => PortDto {
                port_name: port.port_name.clone(),
                kind,
                vid: Some(usb.vid),
                pid: Some(usb.pid),
                serial_number: copy_text(&usb.serial_number),
                manufacturer: copy_text(&usb.manufacturer),
                product: copy_text(&usb.product),
            },
            _ => PortDto {
                port_name: port.port_name.clone(),
                kind,
                vid: None,
                pid: None,
                serial_number: None,
                manufacturer: None,
                product: None,
            },
        }
    }
}

/// The port list the window shows, in discovery order.
pub fn port_dtos(ports: &Vec<PortInfo>) -> (dtos: Vec<PortDto>)
    ensures
        dtos@.len() == ports@.len(),
        forall|i: int| 0 <= i < ports@.len() ==> #[trigger] dto_lists(dtos@[i], ports@[i]),
{
    let mut dtos: Vec<PortDto> = Vec::new();
    let mut i: usize = 0;
    while i < ports.len()
        invariant
            i <= ports@.len(),
            dtos@.len() == i,
            forall|j: int| 0 <= j < i ==> #[trigger] dto_lists(dtos@[j], ports@[j]),
        decreases ports@.len() - i,
    {
        dtos.push(PortDto::from_port(&ports[i]));
        i = i + 1;
    }
    dtos
}

} // verus!
