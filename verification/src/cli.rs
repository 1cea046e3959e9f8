//! The command-line tool's rules: argument checks, byte input, the one-shot serial
//! operations, and the errors and exit codes it reports.
use vstd::prelude::*;
use vstd::string::StringSliceAdditionalSpecFns;
use vstd::utf8::encode_utf8;

use crate::config::{DataBits, FlowControl, Parity, SerialSettings, StopBits};
use crate::error::{error_text, Error};
use crate::hex::{decode_hex, decode_hex_spec, HexError};
use crate::outside::{duration_from_millis, duration_nanos};
use crate::sequence::{sequence_error_text, SequenceError};
use crate::session::{
    bytes_result, query_outcome, read_once, read_until_config_ok, sent_then_flushed, IoCall,
    SerialSession,
};
use crate::step::{read_bounded, send_and_flush, ExecutionFailure, MAX_READ_BYTES};
use crate::transport::{bytes_to_vec, Transport};

verus! {

/// Why a command failed: bad settings, bad input, a serial failure, an unusable Sequence,
/// or a Sequence step that failed while running.
#[derive(Debug)]
pub enum CliError {
    Validation(Error),
    Input(&'static str),
    Runtime(Error),
    Sequence(SequenceError),
    SequenceExecution(ExecutionFailure),
}

/// Invalid requests exit with 2; failures of the serial line itself with 3.
pub open spec fn cli_exit_code(error: CliError) -> i32 {
    match error {
        CliError::Validation(_) | CliError::Input(_) | CliError::Sequence(_) => 2,
        CliError::Runtime(_) | CliError::SequenceExecution(_) => 3,
    }
}

/// The bytes received before a runtime failure, if the failure kept any.
pub open spec fn cli_partial(error: CliError) -> Option<Seq<u8>> {
    match error {
        CliError::Runtime(e) => e.spec_partial(),
        CliError::SequenceExecution(f) => f.error.spec_partial(),
        _ => None,
    }
}

/// The text of a command error; where an I/O error is involved, only the part before the
/// operating system's description.
pub open spec fn cli_error_text(error: CliError) -> Seq<char> {
    match error {
        CliError::Validation(e) | CliError::Runtime(e) => error_text(e),
        CliError::Input(message) => message@,
        CliError::Sequence(e) => sequence_error_text(e),
        CliError::SequenceExecution(f) => f.spec_message_prefix(),
    }
}

/// The error's text is fixed by the error alone: it carries no operating-system
/// description of an I/O failure.
pub open spec fn cli_error_text_is_whole(error: CliError) -> bool {
    match error {
        CliError::Input(_) => true,
        CliError::Sequence(e) => !(e is Io),
        CliError::Validation(e) | CliError::Runtime(e) => !(e is ReadFailed || e is WriteFailed
            || e is FlushFailed),
        CliError::SequenceExecution(f) => !(f.error is ReadFailed || f.error is WriteFailed
            || f.error is FlushFailed),
    }
}

impl CliError {
    pub fn exit_code(&self) -> (code: i32)
        ensures
            code == cli_exit_code(*self),
    {
        match self {
            CliError::Validation(_) | CliError::Input(_) | CliError::Sequence(_) => 2,
            CliError::Runtime(_) | CliError::SequenceExecution(_) => 3,
        }
    }

    pub fn partial(&self) -> (bytes: Option<&[u8]>)
        ensures
            match cli_partial(*self) {
                Some(p) => bytes matches Some(b) && b@ == p,
                None => bytes is None,
            },
    {
        match self {
            CliError::Runtime(error) => error.partial(),
            CliError::SequenceExecution(failure) => failure.error.partial(),
            _ => None,
        }
    }

    /// The error's text, as its `Display` writes it.
    pub fn message(&self) -> (text: String)
        ensures
            cli_error_text(*self).is_prefix_of(text@),
            cli_error_text_is_whole(*self) ==> text@ == cli_error_text(*self),
            match self {
                CliError::Input(m) => text@ == m@,
                CliError::Sequence(e) => !(e is Io) ==> text@ == sequence_error_text(*e),
                CliError::Validation(e) | CliError::Runtime(e) => !(e is ReadFailed
                    || e is WriteFailed || e is FlushFailed) ==> text@ == error_text(*e),
                CliError::SequenceExecution(f) => !(f.error is ReadFailed || f.error is WriteFailed
                    || f.error is FlushFailed) ==> text@ == f.spec_message_prefix(),
            },
    {
        match self {
            CliError::Validation(error) | CliError::Runtime(error) => error.message(),
            CliError::Input(message) => String::from_str(message),
            CliError::Sequence(error) => error.message(),
            CliError::SequenceExecution(failure) => failure.message(),
        }
    }
}

/// What one byte input gives: text as its UTF-8 bytes, or hex; exactly one of the two
/// must be given, and the bytes must not be empty.
pub open spec fn parse_bytes_spec(text: Option<Seq<char>>, hex: Option<Seq<char>>) -> Result<
    Seq<u8>,
    &'static str,
> {
    let parsed: Result<Seq<u8>, &'static str> = match (text, hex) {
        (Some(t), None) => Ok(encode_utf8(t)),
        (None, Some(h)) => match decode_hex_spec(encode_utf8(h)) {
            Ok(bytes) => Ok(bytes),
            Err(HexError::OddDigitCount) => Err("hex input must contain an even number of digits"),
            Err(HexError::InvalidDigit) => Err("hex input contains a non-hex character"),
        },
        _ => Err("exactly one byte input is required"),
    };
    match parsed {
        Ok(bytes) => if bytes.len() == 0 {
            Err("byte input must not be empty")
        } else {
            Ok(bytes)
        },
        Err(message) => Err(message),
    }
}

pub open spec fn view_of_text(text: Option<&str>) -> Option<Seq<char>> {
    match text {
        Some(t) => Some(t@),
        None => None,
    }
}

/// Reads one byte input given as text or as hex.
pub fn parse_bytes(text: Option<&str>, hex: Option<&str>) -> (result: Result<Vec<u8>, CliError>)
    ensures
        match parse_bytes_spec(view_of_text(text), view_of_text(hex)) {
            Ok(bytes) => result matches Ok(b) && b@ == bytes,
            Err(message) => result matches Err(CliError::Input(m)) && m == message,
        },
{
    let bytes = match (text, hex) {
        (Some(text), None) => bytes_to_vec(text.as_bytes()),
        (None, Some(hex)) => match decode_hex(hex) {
            Ok(bytes) => bytes,
            Err(HexError::OddDigitCount) => {
                return Err(CliError::Input("hex input must contain an even number of digits"));
            },
            Err(HexError::InvalidDigit) => {
                return Err(CliError::Input("hex input contains a non-hex character"));
            },
        },
        _ => return Err(CliError::Input("exactly one byte input is required")),
    };
    if bytes.len() == 0 {
        return Err(CliError::Input("byte input must not be empty"));
    }
    Ok(bytes)
}

/// A read limit must be between 1 and `MAX_READ_BYTES`.
pub fn max_bytes(value: usize) -> (result: Result<usize, CliError>)
    ensures
        0 < value <= MAX_READ_BYTES ==> result == Ok::<usize, CliError>(value),
        !(0 < value <= MAX_READ_BYTES) ==> (result matches Err(CliError::Input(m)) && m
            == "max-bytes must be between 1 and 1048576"),
{
    if value == 0 || value > MAX_READ_BYTES {
        return Err(CliError::Input("max-bytes must be between 1 and 1048576"));
    }
    Ok(value)
}

/// Writes the bytes and flushes once.
pub fn send<T: Transport>(session: &mut SerialSession<T>, bytes: &[u8]) -> (result: Result<(), Error>)
    ensures
        final(session).buffered() == old(session).buffered(),
        final(session).made_calls(*old(session)),
        old(session).conserves() ==> final(session).conserves(),
        sent_then_flushed(final(session).calls_since(*old(session)), bytes@, result),
        result matches Err(error) ==> error is WriteFailed || error is FlushFailed,
        final(session).delivered() == old(session).delivered(),
{
    send_and_flush(session, bytes)
}

/// One read of at most `max_bytes` bytes.
pub fn receive<T: Transport>(session: &mut SerialSession<T>, max_bytes: usize) -> (result: Result<
    Vec<u8>,
    Error,
>)
    ensures
        final(session).made_calls(*old(session)),
        old(session).conserves() ==> final(session).conserves(),
        old(session).buffered().len() > 0 ==> final(session).io_calls() == old(session).io_calls(),
        old(session).buffered().len() == 0 && max_bytes > 0 ==> {
            &&& final(session).buffered() == Seq::<u8>::empty()
            &&& read_once(final(session).calls_since(*old(session)), max_bytes as nat, bytes_result(result))
        },
        result matches Ok(bytes) ==> bytes@.len() <= max_bytes,
        max_bytes == 0 ==> (result matches Ok(bytes) && bytes@.len() == 0 && *final(session)
            == *old(session)),
        old(session).buffered().len() > 0 ==> {
            let count = crate::transport::min_nat(
                max_bytes as int,
                old(session).buffered().len() as int,
            );
            &&& result matches Ok(bytes) && bytes@ == old(session).buffered().take(count)
            &&& final(session).buffered() == old(session).buffered().skip(count)
        },
        result matches Err(error) ==> error is Timeout || error is ReadFailed,
        final(session).delivered() == old(session).delivered() + match result {
            Ok(bytes) => bytes@,
            Err(_) => Seq::<u8>::empty(),
        },
{
    read_bounded(session, max_bytes)
}

/// Sends `tx`, then reads through the first `delimiter`, up to `max_bytes` bytes.
pub fn query<T: Transport>(
    session: &mut SerialSession<T>,
    tx: &[u8],
    delimiter: &[u8],
    max_bytes: usize,
) -> (result: Result<Vec<u8>, Error>)
    ensures
        result matches Ok(bytes) ==> bytes@.len() <= max_bytes && crate::session::ends_at_first_delimiter(
            bytes@,
            delimiter@,
        ),
        !read_until_config_ok(delimiter@, max_bytes as int) ==> result is Err,
        final(session).made_calls(*old(session)),
        old(session).conserves() ==> final(session).conserves(),
        query_outcome(
            old(session).buffered(),
            final(session).calls_since(*old(session)),
            tx@,
            delimiter@,
            max_bytes as int,
            bytes_result(result),
            final(session).buffered(),
        ),
        result matches Err(error) ==> {
            &&& error is WriteFailed || error is FlushFailed || error is InvalidConfiguration
                || error is ReadLimitExceeded || error is Timeout || error is ReadFailed
            &&& error is InvalidConfiguration ==> !read_until_config_ok(
                delimiter@,
                max_bytes as int,
            )
        },
        final(session).delivered() == old(session).delivered() + match result {
            Ok(bytes) => bytes@,
            Err(_) => Seq::<u8>::empty(),
        },
{
    let ghost start = *session;
    match send_and_flush(session, tx) {
        Err(error) => Err(error),
        Ok(()) => {
            let ghost sent = *session;
            let result = session.read_until(delimiter, max_bytes);
            proof {
                if !read_until_config_ok(delimiter@, max_bytes as int) {
                    assert(session.calls_since(sent) =~= Seq::<IoCall<T>>::empty());
                }
                session.lemma_made_calls_trans(start, sent);
                let calls = session.calls_since(start);
                let first = sent.calls_since(start);
                assert(calls[0] == first[0]);
                assert(calls[1] == first[1]);
                assert(calls.skip(2) =~= session.calls_since(sent));
            }
            result
        },
    }
}

/// How a command reports its outcome.
#[derive(Debug, Clone, Copy, PartialEq, Eq, Structural)]
pub enum Format {
    Text,
    Json,
    Jsonl,
}

#[derive(Debug, Clone, Copy)]
pub struct OutputArgs {
    pub format: Format,
    pub json: bool,
}

impl OutputArgs {
    /// Machine output is JSON: `--json`, or any format but text.
    pub fn machine(&self) -> (machine: bool)
        ensures
            machine == (self.json || self.format != Format::Text),
    {
        self.json || !matches!(self.format, Format::Text)
    }
}

#[derive(Debug, Clone, Copy, PartialEq, Eq, Structural)]
pub enum CliParity {
    NoParity,
    Odd,
    Even,
}

#[derive(Debug, Clone, Copy, PartialEq, Eq, Structural)]
pub enum CliFlowControl {
    NoFlowControl,
    Software,
    Hardware,
}

/// The serial line options every port command takes.
#[derive(Debug)]
pub struct SerialArgs {
    pub port: String,
    pub baud: u32,
    pub data_bits: u8,
    pub parity: CliParity,
    pub stop_bits: u8,
    pub flow_control: CliFlowControl,
    pub timeout_ms: u64,
}

pub open spec fn data_bits_of_arg(n: u8) -> DataBits {
    if n == 5 {
        DataBits::Five
    } else if n == 6 {
        DataBits::Six
    } else if n == 7 {
        DataBits::Seven
    } else {
        DataBits::Eight
    }
}

pub open spec fn parity_of_arg(parity: CliParity) -> Parity {
    match parity {
        CliParity::NoParity => Parity::NoParity,
        CliParity::Odd => Parity::Odd,
        CliParity::Even => Parity::Even,
    }
}

pub open spec fn stop_bits_of_arg(n: u8) -> StopBits {
    if n == 1 {
        StopBits::One
    } else {
        StopBits::Two
    }
}

pub open spec fn flow_control_of_arg(flow_control: CliFlowControl) -> FlowControl {
    match flow_control {
        CliFlowControl::NoFlowControl => FlowControl::NoFlowControl,
        CliFlowControl::Software => FlowControl::Software,
        CliFlowControl::Hardware => FlowControl::Hardware,
    }
}

/// Why the options name no usable line settings: a blank port name first, then a zero
/// baud rate.
pub open spec fn options_error(port: Seq<char>, baud: u32) -> Option<Error> {
    if crate::config::port_is_blank(port) {
        Some(Error::InvalidConfiguration("port name must not be empty"))
    } else if baud == 0 {
        Some(Error::InvalidConfiguration("baud rate must be nonzero"))
    } else {
        None
    }
}

/// `settings` are the line settings the options name for `port`.
pub open spec fn settings_named(
    settings: SerialSettings,
    port: Seq<char>,
    baud: u32,
    data_bits: u8,
    parity: CliParity,
    stop_bits: u8,
    flow_control: CliFlowControl,
    timeout_ms: u64,
) -> bool {
    &&& settings.port@ == port
    &&& settings.baud_rate == baud
    &&& settings.data_bits == data_bits_of_arg(data_bits)
    &&& settings.parity == parity_of_arg(parity)
    &&& settings.stop_bits == stop_bits_of_arg(stop_bits)
    &&& settings.flow_control == flow_control_of_arg(flow_control)
    &&& duration_nanos(settings.timeout) == timeout_ms * 1_000_000
}

/// How `--parity` spells each choice on the command line.
pub open spec fn cli_parity_name(parity: CliParity) -> Seq<char> {
    match parity {
        CliParity::NoParity => "none"@,
        CliParity::Odd => "odd"@,
        CliParity::Even => "even"@,
    }
}

/// How `--flow-control` spells each choice on the command line.
pub open spec fn cli_flow_control_name(flow_control: CliFlowControl) -> Seq<char> {
    match flow_control {
        CliFlowControl::NoFlowControl => "none"@,
        CliFlowControl::Software => "software"@,
        CliFlowControl::Hardware => "hardware"@,
    }
}

/// Line settings named by the options carry the options' own choices: the port and baud
/// rate as given, as many data bits (5 to 8) and stop bits (1 or 2) as the options
/// count, the parity and flow control the options spell, and the timeout in
/// milliseconds.
pub proof fn lemma_settings_follow_options(
    settings: SerialSettings,
    port: Seq<char>,
    baud: u32,
    data_bits: u8,
    parity: CliParity,
    stop_bits: u8,
    flow_control: CliFlowControl,
    timeout_ms: u64,
)
    requires
        settings_named(settings, port, baud, data_bits, parity, stop_bits, flow_control, timeout_ms),
        5 <= data_bits <= 8,
        1 <= stop_bits <= 2,
    ensures
        settings.port@ == port,
        settings.baud_rate == baud,
        crate::document::data_bits_number(settings.data_bits) == data_bits,
        crate::document::stop_bits_number(settings.stop_bits) == stop_bits,
        crate::document::parity_name(settings.parity) == cli_parity_name(parity),
        crate::document::flow_control_name(settings.flow_control) == cli_flow_control_name(flow_control),
        duration_nanos(settings.timeout) == timeout_ms * 1_000_000,
{
}

/// Builds the line settings the options name, then validates them.
pub fn settings_from_options(
    port: &str,
    baud: u32,
    data_bits: u8,
    parity: CliParity,
    stop_bits: u8,
    flow_control: CliFlowControl,
    timeout_ms: u64,
) -> (result: Result<SerialSettings, CliError>)
    ensures
        match options_error(port@, baud) {
            Some(error) => result matches Err(CliError::Validation(e)) && e == error,
            None => result matches Ok(settings) && settings.is_valid() && settings_named(
                settings,
                port@,
                baud,
                data_bits,
                parity,
                stop_bits,
                flow_control,
                timeout_ms,
            ),
        },
        result matches Ok(settings) ==> {
            &&& crate::document::parity_name(settings.parity) == cli_parity_name(parity)
            &&& crate::document::flow_control_name(settings.flow_control) == cli_flow_control_name(
                flow_control,
            )
        },
{
    let settings = SerialSettings {
        port: String::from_str(port),
        baud_rate: baud,
        data_bits: if data_bits == 5 {
            DataBits::Five
        } else if data_bits == 6 {
            DataBits::Six
        } else if data_bits == 7 {
            DataBits::Seven
        } else {
            DataBits::Eight
        },
        parity: match parity {
            CliParity::NoParity => Parity::NoParity,
            CliParity::Odd => Parity::Odd,
            CliParity::Even => Parity::Even,
        },
        stop_bits: if stop_bits == 1 {
            StopBits::One
        } else {
            StopBits::Two
        },
        flow_control: match flow_control {
            CliFlowControl::NoFlowControl => FlowControl::NoFlowControl,
            CliFlowControl::Software => FlowControl::Software,
            CliFlowControl::Hardware => FlowControl::Hardware,
        },
        timeout: duration_from_millis(timeout_ms),
    };
    match settings.validate() {
        Ok(()) => Ok(settings),
        Err(error) => Err(CliError::Validation(error)),
    }
}

impl SerialArgs {
    /// Why these options name no usable line settings, if they do not.
    pub open spec fn issue(&self) -> Option<Error> {
        options_error(self.port@, self.baud)
    }

    /// `settings` are the line settings these options name.
    pub open spec fn names(&self, settings: SerialSettings) -> bool {
        settings_named(
            settings,
            self.port@,
            self.baud,
            self.data_bits,
            self.parity,
            self.stop_bits,
            self.flow_control,
            self.timeout_ms,
        )
    }

    /// The line settings these options name, validated.
    pub fn settings(&self) -> (result: Result<SerialSettings, CliError>)
        ensures
            match self.issue() {
                Some(error) => result matches Err(CliError::Validation(e)) && e == error,
                None => result matches Ok(settings) && settings.is_valid() && self.names(settings),
            },
    {
        settings_from_options(
            self.port.as_str(),
            self.baud,
            self.data_bits,
            self.parity,
            self.stop_bits,
            self.flow_control,
            self.timeout_ms,
        )
    }
}

/// The bytes to send: `--text` or `--hex`.
#[derive(Debug)]
pub struct TxArgs {
    pub text: Option<String>,
    pub hex: Option<String>,
}

pub open spec fn view_of_string(text: Option<String>) -> Option<Seq<char>> {
    match text {
        Some(t) => Some(t@),
        None => None,
    }
}

fn as_text(text: &Option<String>) -> (view: Option<&str>)
    ensures
        view_of_text(view) == view_of_string(*text),
{
    match text {
        Some(t) => Some(t.as_str()),
        None => None,
    }
}

impl TxArgs {
    pub fn bytes(&self) -> (result: Result<Vec<u8>, CliError>)
        ensures
            match parse_bytes_spec(view_of_string(self.text), view_of_string(self.hex)) {
                Ok(bytes) => result matches Ok(b) && b@ == bytes,
                Err(message) => result matches Err(CliError::Input(m)) && m == message,
            },
    {
        parse_bytes(as_text(&self.text), as_text(&self.hex))
    }
}

/// The delimiter a query reads through: `--until-text` or `--until-hex`.
#[derive(Debug)]
pub struct DelimiterArgs {
    pub until_text: Option<String>,
    pub until_hex: Option<String>,
}

impl DelimiterArgs {
    pub fn bytes(&self) -> (result: Result<Vec<u8>, CliError>)
        ensures
            match parse_bytes_spec(view_of_string(self.until_text), view_of_string(self.until_hex)) {
                Ok(bytes) => result matches Ok(b) && b@ == bytes,
                Err(message) => result matches Err(CliError::Input(m)) && m == message,
            },
    {
        parse_bytes(as_text(&self.until_text), as_text(&self.until_hex))
    }
}


/// `send`: write bytes and flush once.
#[derive(Debug)]
pub struct SendArgs {
    pub serial: SerialArgs,
    pub tx: TxArgs,
    pub output: OutputArgs,
    pub dry_run: bool,
}

/// `receive`: read once, up to `max_bytes`.
#[derive(Debug)]
pub struct ReceiveArgs {
    pub serial: SerialArgs,
    pub max_bytes: usize,
    pub output: OutputArgs,
    pub dry_run: bool,
}

/// `query`: write bytes, then read through a delimiter.
#[derive(Debug)]
pub struct QueryArgs {
    pub serial: SerialArgs,
    pub tx: TxArgs,
    pub delimiter: DelimiterArgs,
    pub max_bytes: usize,
    pub output: OutputArgs,
    pub dry_run: bool,
}

/// A checked query: where to send, what, what to read through, and how much at most.
#[derive(Debug)]
pub struct QueryPlan {
    pub settings: SerialSettings,
    pub tx: Vec<u8>,
    pub delimiter: Vec<u8>,
    pub limit: usize,
}

impl SendArgs {
    /// Checks the options in the order the tool does: line settings, then the bytes.
    pub fn plan(&self) -> (result: Result<(SerialSettings, Vec<u8>), CliError>)
        ensures
            match self.serial.issue() {
                Some(error) => result matches Err(CliError::Validation(e)) && e == error,
                None => match parse_bytes_spec(view_of_string(self.tx.text), view_of_string(self.tx.hex)) {
                    Err(message) => result matches Err(CliError::Input(m)) && m == message,
                    Ok(bytes) => result matches Ok((settings, tx)) && settings.is_valid()
                        && self.serial.names(settings) && tx@ == bytes,
                },
            },
    {
        let settings = match self.serial.settings() {
            Ok(settings) => settings,
            Err(error) => return Err(error),
        };
        let tx = match self.tx.bytes() {
            Ok(tx) => tx,
            Err(error) => return Err(error),
        };
        Ok((settings, tx))
    }
}

impl ReceiveArgs {
    /// Checks the line settings, then the read limit.
    pub fn plan(&self) -> (result: Result<(SerialSettings, usize), CliError>)
        ensures
            match self.serial.issue() {
                Some(error) => result matches Err(CliError::Validation(e)) && e == error,
                None => if 0 < self.max_bytes <= MAX_READ_BYTES {
                    result matches Ok((settings, limit)) && settings.is_valid()
                        && self.serial.names(settings) && limit == self.max_bytes
                } else {
                    result matches Err(CliError::Input(m)) && m
                        == "max-bytes must be between 1 and 1048576"
                },
            },
    {
        let settings = match self.serial.settings() {
            Ok(settings) => settings,
            Err(error) => return Err(error),
        };
        let limit = match max_bytes(self.max_bytes) {
            Ok(limit) => limit,
            Err(error) => return Err(error),
        };
        Ok((settings, limit))
    }
}

impl QueryArgs {
    /// Checks the line settings, the bytes to send, the delimiter, the read limit, and
    /// that the limit leaves room for the delimiter.
    pub fn plan(&self) -> (result: Result<QueryPlan, CliError>)
        ensures
            match self.serial.issue() {
                Some(error) => result matches Err(CliError::Validation(e)) && e == error,
                None => match parse_bytes_spec(view_of_string(self.tx.text), view_of_string(self.tx.hex)) {
                    Err(message) => result matches Err(CliError::Input(m)) && m == message,
                    Ok(tx) => match parse_bytes_spec(
                        view_of_string(self.delimiter.until_text),
                        view_of_string(self.delimiter.until_hex),
                    ) {
                        Err(message) => result matches Err(CliError::Input(m)) && m == message,
                        Ok(delimiter) => if !(0 < self.max_bytes <= MAX_READ_BYTES) {
                            result matches Err(CliError::Input(m)) && m
                                == "max-bytes must be between 1 and 1048576"
                        } else if delimiter.len() > self.max_bytes {
                            result matches Err(CliError::Input(m)) && m
                                == "max-bytes must be at least the delimiter length"
                        } else {
                            &&& result matches Ok(plan)
                            &&& plan.settings.is_valid()
                            &&& self.serial.names(plan.settings)
                            &&& plan.tx@ == tx
                            &&& plan.delimiter@ == delimiter
                            &&& plan.limit == self.max_bytes
                        },
                    },
                },
            },
    {
        let settings = match self.serial.settings() {
            Ok(settings) => settings,
            Err(error) => return Err(error),
        };
        let tx = match self.tx.bytes() {
            Ok(tx) => tx,
            Err(error) => return Err(error),
        };
        let delimiter = match self.delimiter.bytes() {
            Ok(delimiter) => delimiter,
            Err(error) => return Err(error),
        };
        let limit = match max_bytes(self.max_bytes) {
            Ok(limit) => limit,
            Err(error) => return Err(error),
        };
        if delimiter.len() > limit {
            return Err(CliError::Input("max-bytes must be at least the delimiter length"));
        }
        Ok(QueryPlan { settings, tx, delimiter, limit })
    }
}

} // verus!
