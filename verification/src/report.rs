//! What the command-line tool prints: the JSON objects of machine output and the lines
//! of human output, for the one-shot port commands, the manifest, and errors.
use vstd::prelude::*;

use crate::cli::{cli_exit_code, cli_partial, CliError};
use crate::config::{DataBits, FlowControl, Parity, SerialSettings, StopBits};
use crate::document::{data_bits_number, flow_control_name, parity_name, stop_bits_number};
use crate::hex::{encode_hex, encode_hex_spec, spaced_hex, spaced_hex_spec};
use crate::json::{
    member, members_of, number_at, number_value, push_member, text_at, text_value, value_at,
    JsonMember, JsonNumber, JsonValue,
};
use crate::outside::{duration_as_millis, duration_nanos};
use crate::sequence_cli::{
    entry_reported, is_reportable, report_reportable, result_reported, step_results_json, transcript_json,
};
use crate::text::{decimal, push_decimal};

verus! {

/// The version of the JSON event schema the tool writes.
pub const SCHEMA_VERSION: u64 = 2;

/// The line settings after the port, from member `k` on.
pub open spec fn line_settings_at(m: Seq<JsonMember>, k: int, settings: SerialSettings) -> bool {
    &&& number_at(m, k, "baud_rate"@, settings.baud_rate as int)
    &&& number_at(m, k + 1, "data_bits"@, data_bits_number(settings.data_bits) as int)
    &&& text_at(m, k + 2, "parity"@, parity_name(settings.parity))
    &&& number_at(m, k + 3, "stop_bits"@, stop_bits_number(settings.stop_bits) as int)
    &&& text_at(m, k + 4, "flow_control"@, flow_control_name(settings.flow_control))
    &&& number_at(m, k + 5, "timeout_ms"@, duration_nanos(settings.timeout) / 1_000_000)
}

/// The line settings as the tool reports them.
pub open spec fn settings_reported(value: JsonValue, settings: SerialSettings) -> bool {
    let m = members_of(value);
    &&& value is Object
    &&& m.len() == 7
    &&& text_at(m, 0, "port"@, settings.port@)
    &&& line_settings_at(m, 1, settings)
}

/// The line settings without the port.
pub open spec fn line_settings_reported(value: JsonValue, settings: SerialSettings) -> bool {
    let m = members_of(value);
    &&& value is Object
    &&& m.len() == 6
    &&& line_settings_at(m, 0, settings)
}

fn push_line_settings(m: &mut Vec<JsonMember>, settings: &SerialSettings)
    requires
        duration_nanos(settings.timeout) / 1_000_000 <= u64::MAX,
    ensures
        final(m)@.len() == old(m)@.len() + 6,
        forall|k: int| 0 <= k < old(m)@.len() ==> final(m)@[k] == old(m)@[k],
        line_settings_at(final(m)@, old(m)@.len() as int, *settings),
{
    push_member(m, "baud_rate", number_value(settings.baud_rate as u64));
    let data_bits: u64 = match settings.data_bits {
        DataBits::Five => 5,
        DataBits::Six => 6,
        DataBits::Seven => 7,
        DataBits::Eight => 8,
    };
    push_member(m, "data_bits", number_value(data_bits));
    let parity = match settings.parity {
        Parity::NoParity => "none",
        Parity::Odd => "odd",
        Parity::Even => "even",
    };
    push_member(m, "parity", text_value(parity));
    let stop_bits: u64 = match settings.stop_bits {
        StopBits::One => 1,
        StopBits::Two => 2,
    };
    push_member(m, "stop_bits", number_value(stop_bits));
    let flow_control = match settings.flow_control {
        FlowControl::NoFlowControl => "none",
        FlowControl::Software => "software",
        FlowControl::Hardware => "hardware",
    };
    push_member(m, "flow_control", text_value(flow_control));
    let millis = duration_as_millis(&settings.timeout);
    push_member(m, "timeout_ms", number_value(millis as u64));
}

/// The line settings as a JSON object.
pub fn settings_json(settings: &SerialSettings) -> (value: JsonValue)
    requires
        duration_nanos(settings.timeout) / 1_000_000 <= u64::MAX,
    ensures
        settings_reported(value, *settings),
{
    let mut m: Vec<JsonMember> = Vec::new();
    push_member(&mut m, "port", text_value(settings.port.as_str()));
    push_line_settings(&mut m, settings);
    JsonValue::Object(m)
}

/// The line settings without the port, as a JSON object.
pub fn line_settings_json(settings: &SerialSettings) -> (value: JsonValue)
    requires
        duration_nanos(settings.timeout) / 1_000_000 <= u64::MAX,
    ensures
        line_settings_reported(value, *settings),
{
    let mut m: Vec<JsonMember> = Vec::new();
    push_line_settings(&mut m, settings);
    JsonValue::Object(m)
}

/// The members every event starts with: its name, the schema version, and the time.
pub open spec fn event_head(m: Seq<JsonMember>, event: Seq<char>, timestamp: Seq<char>) -> bool {
    &&& text_at(m, 0, "event"@, event)
    &&& number_at(m, 1, "schema_version"@, SCHEMA_VERSION as int)
    &&& text_at(m, 2, "timestamp_utc"@, timestamp)
}

fn event_members(event: &str, timestamp: &str) -> (m: Vec<JsonMember>)
    ensures
        m@.len() == 3,
        event_head(m@, event@, timestamp@),
{
    let mut m: Vec<JsonMember> = Vec::new();
    push_member(&mut m, "event", text_value(event));
    push_member(&mut m, "schema_version", number_value(SCHEMA_VERSION));
    push_member(&mut m, "timestamp_utc", text_value(timestamp));
    m
}

/// The error event of a failed command: its message and exit code, and the bytes
/// received before the failure when there were any.
pub open spec fn error_reported(
    value: JsonValue,
    command: Seq<char>,
    error: CliError,
    message: Seq<char>,
    timestamp: Seq<char>,
) -> bool {
    let m = members_of(value);
    &&& value is Object
    &&& event_head(m, "error"@, timestamp)
    &&& value_at(m, 3, "ok"@, JsonValue::Bool(false))
    &&& text_at(m, 4, "command"@, command)
    &&& text_at(m, 5, "message"@, message)
    &&& number_at(m, 6, "exit_code"@, cli_exit_code(error) as int)
    &&& match cli_partial(error) {
        Some(partial) => {
            &&& text_at(m, 7, "partial_hex"@, encode_hex_spec(partial))
            &&& number_at(m, 8, "partial_bytes"@, partial.len() as int)
        },
        None => true,
    }
    &&& {
        let n: int = if cli_partial(error) is Some { 9 } else { 7 };
        match error {
            CliError::SequenceExecution(failure) => {
                &&& m.len() == n + 3
                &&& text_at(m, n, "step_id"@, failure.step_id@)
                &&& m[n + 1].key@ == "step_results"@
                &&& m[n + 1].value matches JsonValue::Array(results) && results@.len()
                    == failure.report.step_results@.len() && forall|i: int|
                    0 <= i < results@.len() ==> #[trigger] result_reported(
                        results@[i],
                        failure.report.step_results@[i],
                    )
                &&& m[n + 2].key@ == "transcript"@
                &&& m[n + 2].value matches JsonValue::Array(entries) && entries@.len()
                    == failure.report.transcript.entries@.len() && forall|i: int|
                    0 <= i < entries@.len() ==> #[trigger] entry_reported(
                        entries@[i],
                        failure.report.transcript.entries@[i],
                    )
            },
            _ => m.len() == n,
        }
    }
}

/// Whether the timeout of `settings` can be reported in whole `u64` milliseconds.
pub fn timeout_reportable(settings: &SerialSettings) -> (ok: bool)
    ensures
        ok == (duration_nanos(settings.timeout) / 1_000_000 <= u64::MAX),
{
    duration_as_millis(&settings.timeout) <= u64::MAX as u128
}

/// Whether `error_json` can report `error`: the waits of a failed run fit in `u64`
/// milliseconds.
pub fn error_reportable(error: &CliError) -> (ok: bool)
    ensures
        ok == (error matches CliError::SequenceExecution(failure) ==> report_reportable(failure.report)),
{
    match error {
        CliError::SequenceExecution(failure) => is_reportable(&failure.report),
        _ => true,
    }
}

/// The error event for `error` raised by `command`.
pub fn error_json(command: &str, error: &CliError, timestamp: &str) -> (value: JsonValue)
    requires
        error matches CliError::SequenceExecution(failure) ==> report_reportable(failure.report),
    ensures
        exists|message: Seq<char>|
            error_reported(value, command@, *error, message, timestamp@)
                && crate::cli::cli_error_text(*error).is_prefix_of(message)
                && (crate::cli::cli_error_text_is_whole(*error) ==> message == crate::cli::cli_error_text(*error)),
{
    let mut m = event_members("error", timestamp);
    push_member(&mut m, "ok", JsonValue::Bool(false));
    push_member(&mut m, "command", text_value(command));
    let message = error.message();
    push_member(&mut m, "message", JsonValue::Text(message));
    push_member(&mut m, "exit_code", number_value(error.exit_code() as u64));
    match error.partial() {
        Some(partial) => {
            push_member(&mut m, "partial_hex", JsonValue::Text(encode_hex(partial)));
            push_member(&mut m, "partial_bytes", number_value(partial.len() as u64));
        },
        None => {},
    }
    match error {
        CliError::SequenceExecution(failure) => {
            push_member(&mut m, "step_id", text_value(failure.step_id.as_str()));
            push_member(&mut m, "step_results", step_results_json(&failure.report));
            push_member(&mut m, "transcript", transcript_json(&failure.report));
        },
        _ => {},
    }
    let value = JsonValue::Object(m);
    assert(error_reported(value, command@, *error, message@, timestamp@));
    value
}

/// The text of a send: what was (or would be) sent, and where.
pub open spec fn send_line(dry_run: bool, tx: Seq<u8>, port: Seq<char>) -> Seq<char> {
    if dry_run {
        "Dry run: would send "@ + decimal(tx.len()) + " bytes to "@ + port + " ("@
            + spaced_hex_spec(tx) + ")"@
    } else {
        "Send: "@ + decimal(tx.len()) + " bytes sent to "@ + port + " ("@ + spaced_hex_spec(tx)
            + ")"@
    }
}

/// The event of a send: for a dry run, that no serial I/O happens and the settings that
/// would be used; then the port and the bytes.
pub open spec fn send_reported(
    value: JsonValue,
    dry_run: bool,
    settings: SerialSettings,
    tx: Seq<u8>,
    timestamp: Seq<char>,
) -> bool {
    let m = members_of(value);
    &&& value is Object
    &&& event_head(m, if dry_run { "dry_run"@ } else { "send"@ }, timestamp)
    &&& value_at(m, 3, "ok"@, JsonValue::Bool(true))
    &&& text_at(m, 4, "command"@, "send"@)
    &&& if dry_run {
        &&& m.len() == 10
        &&& value_at(m, 5, "performs_serial_io"@, JsonValue::Bool(false))
        &&& m[6].key@ == "serial_settings"@
        &&& settings_reported(m[6].value, settings)
        &&& text_at(m, 7, "port"@, settings.port@)
        &&& text_at(m, 8, "tx_hex"@, encode_hex_spec(tx))
        &&& number_at(m, 9, "tx_bytes"@, tx.len() as int)
    } else {
        &&& m.len() == 8
        &&& text_at(m, 5, "port"@, settings.port@)
        &&& text_at(m, 6, "tx_hex"@, encode_hex_spec(tx))
        &&& number_at(m, 7, "tx_bytes"@, tx.len() as int)
    }
}

fn push_dry_run_head(m: &mut Vec<JsonMember>, settings: &SerialSettings)
    requires
        duration_nanos(settings.timeout) / 1_000_000 <= u64::MAX,
    ensures
        final(m)@.len() == old(m)@.len() + 2,
        forall|k: int| 0 <= k < old(m)@.len() ==> final(m)@[k] == old(m)@[k],
        value_at(final(m)@, old(m)@.len() as int, "performs_serial_io"@, JsonValue::Bool(false)),
        final(m)@[old(m)@.len() + 1int].key@ == "serial_settings"@,
        settings_reported(final(m)@[old(m)@.len() + 1int].value, *settings),
{
    push_member(m, "performs_serial_io", JsonValue::Bool(false));
    push_member(m, "serial_settings", settings_json(settings));
}

/// The outcome of a send, as a JSON event and as a line of text.
pub fn send_output(dry_run: bool, settings: &SerialSettings, tx: &[u8], timestamp: &str) -> (output: (
    JsonValue,
    String,
))
    requires
        duration_nanos(settings.timeout) / 1_000_000 <= u64::MAX,
    ensures
        send_reported(output.0, dry_run, *settings, tx@, timestamp@),
        output.1@ == send_line(dry_run, tx@, settings.port@),
{
    let mut m = event_members(if dry_run { "dry_run" } else { "send" }, timestamp);
    push_member(&mut m, "ok", JsonValue::Bool(true));
    push_member(&mut m, "command", text_value("send"));
    if dry_run {
        push_dry_run_head(&mut m, settings);
    }
    push_member(&mut m, "port", text_value(settings.port.as_str()));
    push_member(&mut m, "tx_hex", JsonValue::Text(encode_hex(tx)));
    push_member(&mut m, "tx_bytes", number_value(tx.len() as u64));
    let mut text = String::from_str(if dry_run { "Dry run: would send " } else { "Send: " });
    push_decimal(&mut text, tx.len() as u128);
    text.append(if dry_run { " bytes to " } else { " bytes sent to " });
    text.append(settings.port.as_str());
    text.append(" (");
    let spaced = spaced_hex(tx);
    text.append(spaced.as_str());
    text.append(")");
    (JsonValue::Object(m), text)
}

/// The event of a receive: for a dry run, the settings and the read limit; otherwise the
/// bytes received.
pub open spec fn receive_reported(
    value: JsonValue,
    dry_run: bool,
    settings: SerialSettings,
    limit: usize,
    rx: Seq<u8>,
    timestamp: Seq<char>,
) -> bool {
    let m = members_of(value);
    &&& value is Object
    &&& event_head(m, if dry_run { "dry_run"@ } else { "receive"@ }, timestamp)
    &&& value_at(m, 3, "ok"@, JsonValue::Bool(true))
    &&& text_at(m, 4, "command"@, "receive"@)
    &&& if dry_run {
        &&& m.len() == 9
        &&& value_at(m, 5, "performs_serial_io"@, JsonValue::Bool(false))
        &&& m[6].key@ == "serial_settings"@
        &&& settings_reported(m[6].value, settings)
        &&& text_at(m, 7, "port"@, settings.port@)
        &&& number_at(m, 8, "max_bytes"@, limit as int)
    } else {
        &&& m.len() == 8
        &&& text_at(m, 5, "port"@, settings.port@)
        &&& text_at(m, 6, "rx_hex"@, encode_hex_spec(rx))
        &&& number_at(m, 7, "rx_bytes"@, rx.len() as int)
    }
}

pub open spec fn receive_line(dry_run: bool, limit: usize, rx: Seq<u8>, port: Seq<char>) -> Seq<
    char,
> {
    if dry_run {
        "Dry run: receive up to "@ + decimal(limit as nat) + " bytes from "@ + port
    } else {
        "Receive: "@ + decimal(rx.len()) + " bytes from "@ + port + " ("@ + spaced_hex_spec(rx)
            + ")"@
    }
}

/// The outcome of a receive (`rx` is ignored for a dry run).
pub fn receive_output(
    dry_run: bool,
    settings: &SerialSettings,
    limit: usize,
    rx: &[u8],
    timestamp: &str,
) -> (output: (JsonValue, String))
    requires
        duration_nanos(settings.timeout) / 1_000_000 <= u64::MAX,
    ensures
        receive_reported(output.0, dry_run, *settings, limit, rx@, timestamp@),
        output.1@ == receive_line(dry_run, limit, rx@, settings.port@),
{
    let mut m = event_members(if dry_run { "dry_run" } else { "receive" }, timestamp);
    push_member(&mut m, "ok", JsonValue::Bool(true));
    push_member(&mut m, "command", text_value("receive"));
    let mut text;
    if dry_run {
        push_dry_run_head(&mut m, settings);
        push_member(&mut m, "port", text_value(settings.port.as_str()));
        push_member(&mut m, "max_bytes", number_value(limit as u64));
        text = String::from_str("Dry run: receive up to ");
        push_decimal(&mut text, limit as u128);
        text.append(" bytes from ");
        text.append(settings.port.as_str());
    } else {
        push_member(&mut m, "port", text_value(settings.port.as_str()));
        push_member(&mut m, "rx_hex", JsonValue::Text(encode_hex(rx)));
        push_member(&mut m, "rx_bytes", number_value(rx.len() as u64));
        text = String::from_str("Receive: ");
        push_decimal(&mut text, rx.len() as u128);
        text.append(" bytes from ");
        text.append(settings.port.as_str());
        text.append(" (");
        let spaced = spaced_hex(rx);
        text.append(spaced.as_str());
        text.append(")");
    }
    (JsonValue::Object(m), text)
}

/// The event of a query: for a dry run, the settings, the bytes to send, the delimiter
/// and the limit; otherwise the bytes sent and received and the delimiter.
pub open spec fn query_reported(
    value: JsonValue,
    dry_run: bool,
    settings: SerialSettings,
    tx: Seq<u8>,
    delimiter: Seq<u8>,
    limit: usize,
    rx: Seq<u8>,
    timestamp: Seq<char>,
) -> bool {
    let m = members_of(value);
    &&& value is Object
    &&& event_head(m, if dry_run { "dry_run"@ } else { "query"@ }, timestamp)
    &&& value_at(m, 3, "ok"@, JsonValue::Bool(true))
    &&& text_at(m, 4, "command"@, "query"@)
    &&& if dry_run {
        &&& m.len() == 12
        &&& value_at(m, 5, "performs_serial_io"@, JsonValue::Bool(false))
        &&& m[6].key@ == "serial_settings"@
        &&& settings_reported(m[6].value, settings)
        &&& text_at(m, 7, "port"@, settings.port@)
        &&& text_at(m, 8, "tx_hex"@, encode_hex_spec(tx))
        &&& number_at(m, 9, "tx_bytes"@, tx.len() as int)
        &&& text_at(m, 10, "delimiter_hex"@, encode_hex_spec(delimiter))
        &&& number_at(m, 11, "max_bytes"@, limit as int)
    } else {
        &&& m.len() == 11
        &&& text_at(m, 5, "port"@, settings.port@)
        &&& text_at(m, 6, "tx_hex"@, encode_hex_spec(tx))
        &&& number_at(m, 7, "tx_bytes"@, tx.len() as int)
        &&& text_at(m, 8, "rx_hex"@, encode_hex_spec(rx))
        &&& number_at(m, 9, "rx_bytes"@, rx.len() as int)
        &&& text_at(m, 10, "delimiter_hex"@, encode_hex_spec(delimiter))
    }
}

pub open spec fn query_line(
    dry_run: bool,
    tx: Seq<u8>,
    delimiter: Seq<u8>,
    limit: usize,
    rx: Seq<u8>,
    port: Seq<char>,
) -> Seq<char> {
    if dry_run {
        "Dry run: query "@ + port + " with TX "@ + spaced_hex_spec(tx) + " until "@
            + spaced_hex_spec(delimiter) + " (max "@ + decimal(limit as nat) + " bytes)"@
    } else {
        "Query "@ + port + ": TX "@ + spaced_hex_spec(tx) + " / RX "@ + spaced_hex_spec(rx)
    }
}

/// The outcome of a query (`rx` is ignored for a dry run).
pub fn query_output(
    dry_run: bool,
    settings: &SerialSettings,
    tx: &[u8],
    delimiter: &[u8],
    limit: usize,
    rx: &[u8],
    timestamp: &str,
) -> (output: (JsonValue, String))
    requires
        duration_nanos(settings.timeout) / 1_000_000 <= u64::MAX,
    ensures
        query_reported(output.0, dry_run, *settings, tx@, delimiter@, limit, rx@, timestamp@),
        output.1@ == query_line(dry_run, tx@, delimiter@, limit, rx@, settings.port@),
{
    let mut m = event_members(if dry_run { "dry_run" } else { "query" }, timestamp);
    push_member(&mut m, "ok", JsonValue::Bool(true));
    push_member(&mut m, "command", text_value("query"));
    let mut text;
    if dry_run {
        push_dry_run_head(&mut m, settings);
        push_member(&mut m, "port", text_value(settings.port.as_str()));
        push_member(&mut m, "tx_hex", JsonValue::Text(encode_hex(tx)));
        push_member(&mut m, "tx_bytes", number_value(tx.len() as u64));
        push_member(&mut m, "delimiter_hex", JsonValue::Text(encode_hex(delimiter)));
        push_member(&mut m, "max_bytes", number_value(limit as u64));
        text = String::from_str("Dry run: query ");
        text.append(settings.port.as_str());
        text.append(" with TX ");
        let spaced = spaced_hex(tx);
        text.append(spaced.as_str());
        text.append(" until ");
        let spaced = spaced_hex(delimiter);
        text.append(spaced.as_str());
        text.append(" (max ");
        push_decimal(&mut text, limit as u128);
        text.append(" bytes)");
    } else {
        push_member(&mut m, "port", text_value(settings.port.as_str()));
        push_member(&mut m, "tx_hex", JsonValue::Text(encode_hex(tx)));
        push_member(&mut m, "tx_bytes", number_value(tx.len() as u64));
        push_member(&mut m, "rx_hex", JsonValue::Text(encode_hex(rx)));
        push_member(&mut m, "rx_bytes", number_value(rx.len() as u64));
        push_member(&mut m, "delimiter_hex", JsonValue::Text(encode_hex(delimiter)));
        text = String::from_str("Query ");
        text.append(settings.port.as_str());
        text.append(": TX ");
        let spaced = spaced_hex(tx);
        text.append(spaced.as_str());
        text.append(" / RX ");
        let spaced = spaced_hex(rx);
        text.append(spaced.as_str());
    }
    (JsonValue::Object(m), text)
}

/// The tool's static identity: its name, its version, and the Worker protocol it speaks.
pub open spec fn manifest_reported(value: JsonValue, version: Seq<char>) -> bool {
    let m = members_of(value);
    &&& value is Object
    &&& m.len() == 5
    &&& text_at(m, 0, "event"@, "tool_manifest"@)
    &&& number_at(m, 1, "schema_version"@, SCHEMA_VERSION as int)
    &&& text_at(m, 2, "tool_id"@, "serial"@)
    &&& text_at(m, 3, "tool_version"@, version)
    &&& m[4].key@ == "worker_protocol"@
    &&& m[4].value matches JsonValue::Object(w) && {
        &&& w@.len() == 2
        &&& text_at(w@, 0, "compatibility_policy"@, "v2-only"@)
        &&& w@[1].key@ == "schema_versions"@
        &&& w@[1].value matches JsonValue::Array(versions)
        &&& versions@ == seq![JsonValue::Number(JsonNumber::Unsigned(SCHEMA_VERSION))]
    }
}

/// The manifest event and its line of text, for the tool version `version`.
pub fn manifest_output(version: &str) -> (output: (JsonValue, String))
    ensures
        manifest_reported(output.0, version@),
        output.1@ == "serial "@ + version@ + "\nWorker protocol: schema 2"@,
{
    let mut w: Vec<JsonMember> = Vec::new();
    push_member(&mut w, "compatibility_policy", text_value("v2-only"));
    let mut versions: Vec<JsonValue> = Vec::new();
    versions.push(number_value(SCHEMA_VERSION));
    push_member(&mut w, "schema_versions", JsonValue::Array(versions));
    let mut m: Vec<JsonMember> = Vec::new();
    push_member(&mut m, "event", text_value("tool_manifest"));
    push_member(&mut m, "schema_version", number_value(SCHEMA_VERSION));
    push_member(&mut m, "tool_id", text_value("serial"));
    push_member(&mut m, "tool_version", text_value(version));
    push_member(&mut m, "worker_protocol", JsonValue::Object(w));
    let mut text = String::from_str("serial ");
    text.append(version);
    text.append("\nWorker protocol: schema 2");
    assert(versions@ =~= seq![JsonValue::Number(JsonNumber::Unsigned(SCHEMA_VERSION))]);
    (JsonValue::Object(m), text)
}

/// The `send` output, or `None` when the timeout cannot be reported in whole `u64`
/// milliseconds.
pub fn send_report(dry_run: bool, settings: &SerialSettings, tx: &[u8], timestamp: &str) -> (output:
    Option<(JsonValue, String)>)
    ensures
        output is None <==> !(duration_nanos(settings.timeout) / 1_000_000 <= u64::MAX),
        output matches Some(o) ==> send_reported(o.0, dry_run, *settings, tx@, timestamp@) && o.1@
            == send_line(dry_run, tx@, settings.port@),
{
    if timeout_reportable(settings) {
        Some(send_output(dry_run, settings, tx, timestamp))
    } else {
        None
    }
}

/// The `receive` output, or `None` when the timeout cannot be reported in whole `u64`
/// milliseconds.
pub fn receive_report(
    dry_run: bool,
    settings: &SerialSettings,
    limit: usize,
    rx: &[u8],
    timestamp: &str,
) -> (output: Option<(JsonValue, String)>)
    ensures
        output is None <==> !(duration_nanos(settings.timeout) / 1_000_000 <= u64::MAX),
        output matches Some(o) ==> receive_reported(o.0, dry_run, *settings, limit, rx@, timestamp@)
            && o.1@ == receive_line(dry_run, limit, rx@, settings.port@),
{
    if timeout_reportable(settings) {
        Some(receive_output(dry_run, settings, limit, rx, timestamp))
    } else {
        None
    }
}

/// The `query` output, or `None` when the timeout cannot be reported in whole `u64`
/// milliseconds.
pub fn query_report(
    dry_run: bool,
    settings: &SerialSettings,
    tx: &[u8],
    delimiter: &[u8],
    limit: usize,
    rx: &[u8],
    timestamp: &str,
) -> (output: Option<(JsonValue, String)>)
    ensures
        output is None <==> !(duration_nanos(settings.timeout) / 1_000_000 <= u64::MAX),
        output matches Some(o) ==> query_reported(o.0, dry_run, *settings, tx@, delimiter@, limit, rx@, timestamp@)
            && o.1@ == query_line(dry_run, tx@, delimiter@, limit, rx@, settings.port@),
{
    if timeout_reportable(settings) {
        Some(query_output(dry_run, settings, tx, delimiter, limit, rx, timestamp))
    } else {
        None
    }
}

/// The error event, or `None` when a wait of a failed run cannot be reported in whole
/// `u64` milliseconds.
pub fn error_report(command: &str, error: &CliError, timestamp: &str) -> (value: Option<JsonValue>)
    ensures
        value is None <==> !(error matches CliError::SequenceExecution(failure) ==> report_reportable(
            failure.report,
        )),
        value matches Some(v) ==> exists|message: Seq<char>|
            error_reported(v, command@, *error, message, timestamp@)
                && crate::cli::cli_error_text(*error).is_prefix_of(message)
                && (crate::cli::cli_error_text_is_whole(*error) ==> message == crate::cli::cli_error_text(*error)),
{
    if error_reportable(error) {
        Some(error_json(command, error, timestamp))
    } else {
        None
    }
}

} // verus!
