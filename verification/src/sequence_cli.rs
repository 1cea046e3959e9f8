//! The `sequence` commands of the command-line tool: which runtime a run may use, how a
//! run's results and transcript are reported, and how received bytes are shown.
use vstd::prelude::*;

use crate::cli::{CliError, OutputArgs};
use crate::hex::{encode_hex, encode_hex_spec, spaced_hex, spaced_hex_spec};
use crate::json::{
    members_of, number_at, number_value, push_member, text_at, text_value, value_at, JsonMember,
    JsonValue,
};
use crate::outside::{
    debug_escaped, decode_lossy, duration_as_millis, duration_nanos, escape_debug_text, lossy_text,
};
use crate::text::{trim_str, trimmed};
use crate::report::{event_head, SCHEMA_VERSION};
use crate::sequence::{Sequence, SequenceError};
use crate::session::SerialSession;
use crate::step::{
    preorder, reports_first_issue, run_steps as run_step_tree, schedule, steps_valid,
    Direction, Pause, RunError, RunReport, Step, StepKind, StepOutcome, StepResult,
    TranscriptEntry,
};
use crate::text::{decimal, push_decimal};
use crate::transport::Transport;

verus! {

/// How received bytes are shown in human output.
#[derive(Debug, Clone, Copy, PartialEq, Eq, Structural)]
pub enum RxDisplay {
    Hex,
    Text,
    Both,
}

/// Received bytes as text: decoded as UTF-8 with invalid sequences replaced, then
/// escaped for display.
pub open spec fn escaped_text(bytes: Seq<u8>) -> Seq<char> {
    debug_escaped(lossy_text(bytes))
}

fn escape_received(bytes: &[u8]) -> (text: String)
    ensures
        text@ == escaped_text(bytes@),
{
    let decoded = decode_lossy(bytes);
    escape_debug_text(decoded.as_str())
}

/// Received bytes as shown: spaced uppercase hex, escaped text, or both on two lines.
pub open spec fn rx_shown(bytes: Seq<u8>, display: RxDisplay, indent: Seq<char>) -> Seq<char> {
    match display {
        RxDisplay::Hex => spaced_hex_spec(bytes),
        RxDisplay::Text => escaped_text(bytes),
        RxDisplay::Both => indent + "HEX: "@ + spaced_hex_spec(bytes) + "\n"@ + indent + "TEXT: "@
            + escaped_text(bytes),
    }
}

/// Renders received bytes for human output.
pub fn render_rx(bytes: &[u8], display: RxDisplay, indent: &str) -> (text: String)
    ensures
        text@ == rx_shown(bytes@, display, indent@),
{
    match display {
        RxDisplay::Hex => spaced_hex(bytes),
        RxDisplay::Text => escape_received(bytes),
        RxDisplay::Both => {
            let mut text = String::from_str(indent);
            text.append("HEX: ");
            let spaced = spaced_hex(bytes);
            text.append(spaced.as_str());
            text.append("\n");
            text.append(indent);
            text.append("TEXT: ");
            let escaped = escape_received(bytes);
            text.append(escaped.as_str());
            text
        },
    }
}

/// The number of steps a Sequence defines, repeat bodies counted once.
pub fn count_steps(steps: &[Step]) -> (count: usize)
    requires
        preorder(steps@).len() <= usize::MAX,
    ensures
        count == preorder(steps@).len(),
    decreases steps@,
{
    let mut count: usize = 0;
    let mut i: usize = 0;
    while i < steps.len()
        invariant
            i <= steps@.len(),
            count == preorder(steps@.take(i as int)).len(),
            preorder(steps@).len() <= usize::MAX,
        decreases steps@.len() - i,
    {
        let step = &steps[i];
        proof {
            crate::step::lemma_preorder_single(*step);
            assert(steps@.take(i + 1) =~= steps@.take(i as int) + seq![*step]);
            crate::step::lemma_preorder_append(steps@.take(i as int), seq![*step]);
            assert(steps@ =~= steps@.take(i + 1) + steps@.skip(i + 1));
            crate::step::lemma_preorder_append(steps@.take(i + 1), steps@.skip(i + 1));
        }
        let nested = match &step.kind {
            StepKind::Repeat { steps: children, .. } => {
                proof {
                    assert(decreases_to!(steps@ => steps@[i as int]));
                    assert(decreases_to!(steps@[i as int] => steps@[i as int].kind));
                    assert(decreases_to!(step.kind => step.kind->steps));
                    assert(decreases_to!(step.kind->steps => step.kind->steps@));
                }
                count_steps(children.as_slice())
            },
            _ => 0,
        };
        count = count + 1 + nested;
        i = i + 1;
    }
    assert(steps@.take(i as int) =~= steps@);
    count
}

/// Where a run executes.
#[derive(Debug, Clone, Copy, PartialEq, Eq, Structural)]
pub enum RunMode {
    Live,
    Simulate,
}

/// Which runtime resource a run may use: a live run names a port that is not blank and
/// no simulation profile; a simulated run names the loopback profile and no port.
pub open spec fn run_resource_spec(
    mode: RunMode,
    port: Option<Seq<char>>,
    profile: Option<Seq<char>>,
) -> Result<Seq<char>, &'static str> {
    match (mode, port, profile) {
        (RunMode::Live, Some(p), None) if trimmed(p).len() > 0 => Ok(p),
        (RunMode::Simulate, None, Some(id)) => if id == "loopback-v1"@ {
            Ok(id)
        } else {
            Err("unknown simulation profile")
        },
        (RunMode::Live, _, _) => Err("live mode requires --port and forbids --simulation-profile-id"),
        (RunMode::Simulate, _, _) => Err(
            "simulate mode requires --simulation-profile-id and forbids --port",
        ),
    }
}

/// Admits a run's runtime resource, or refuses it with an input error.
pub fn run_resource<'a>(mode: RunMode, port: Option<&'a str>, profile: Option<&'a str>) -> (result: Result<&'a str, CliError>)
    ensures
        match run_resource_spec(mode, crate::cli::view_of_text(port), crate::cli::view_of_text(profile)) {
            Ok(resource) => result matches Ok(r) && r@ == resource,
            Err(message) => result matches Err(CliError::Input(m)) && m == message,
        },
{
    match mode {
        RunMode::Live => match (port, profile) {
            (Some(port), None) => {
                if trim_str(port).is_empty() {
                    Err(CliError::Input("live mode requires --port and forbids --simulation-profile-id"))
                } else {
                    Ok(port)
                }
            },
            _ => Err(CliError::Input("live mode requires --port and forbids --simulation-profile-id")),
        },
        RunMode::Simulate => match (port, profile) {
            (None, Some(id)) => {
                if crate::json::text_equals(id, "loopback-v1") {
                    Ok(id)
                } else {
                    Err(CliError::Input("unknown simulation profile"))
                }
            },
            _ => Err(CliError::Input("simulate mode requires --simulation-profile-id and forbids --port")),
        },
    }
}

/// `sequence validate`: check a Sequence file without opening a port.
#[derive(Debug)]
pub struct ValidateArgs {
    pub file: String,
    pub output: OutputArgs,
}

/// `sequence run`: execute a Sequence on a live port or the simulation.
#[derive(Debug)]
pub struct RunArgs {
    pub file: String,
    pub mode: RunMode,
    pub port: Option<String>,
    pub simulation_profile_id: Option<String>,
    pub rx_display: RxDisplay,
    pub output: OutputArgs,
}

#[derive(Debug)]
pub enum SequenceCommand {
    Validate(ValidateArgs),
    Run(RunArgs),
}

#[derive(Debug)]
pub struct SequenceArgs {
    pub command: SequenceCommand,
}

impl SequenceArgs {
    pub fn command_name(&self) -> (name: &'static str)
        ensures
            name@ == match self.command {
                SequenceCommand::Validate(_) => "sequence-validate"@,
                SequenceCommand::Run(_) => "sequence-run"@,
            },
    {
        match self.command {
            SequenceCommand::Validate(_) => "sequence-validate",
            SequenceCommand::Run(_) => "sequence-run",
        }
    }

    pub fn output(&self) -> (output: &OutputArgs)
        ensures
            *output == match self.command {
                SequenceCommand::Validate(args) => args.output,
                SequenceCommand::Run(args) => args.output,
            },
    {
        match &self.command {
            SequenceCommand::Validate(args) => &args.output,
            SequenceCommand::Run(args) => &args.output,
        }
    }
}

/// Runs the steps, reporting an invalid tree as a Sequence error and a failed step as an
/// execution failure.
pub fn run_steps<T: Transport, P: Pause>(
    session: &mut SerialSession<T>,
    steps: &[Step],
    pause: &mut P,
) -> (result: Result<RunReport, CliError>)
    ensures
        final(session).made_calls(*old(session)),
        old(session).conserves() ==> final(session).conserves(),
        match result {
            Ok(report) => {
                &&& steps_valid(steps@)
                &&& crate::step::report_follows(schedule(steps@), report)
                &&& report.step_results@.len() == schedule(steps@).len()
                &&& crate::step::ran_on(schedule(steps@), report.step_results@, None, *old(session), *final(session), *old(pause), *final(pause))
            },
            Err(CliError::Sequence(SequenceError::StepValidation(error))) => {
                &&& reports_first_issue(Seq::empty(), preorder(steps@), error)
                &&& *final(session) == *old(session)
                &&& *final(pause) == *old(pause)
            },
            Err(CliError::SequenceExecution(failure)) => {
                let n = failure.report.step_results@.len();
                &&& steps_valid(steps@)
                &&& crate::step::report_follows(schedule(steps@), failure.report)
                &&& n < schedule(steps@).len()
                &&& failure.step_id@ == schedule(steps@)[n as int].id@
                &&& crate::step::failure_fits(schedule(steps@)[n as int], failure.error)
                &&& crate::step::ran_on(
                    schedule(steps@),
                    failure.report.step_results@,
                    Some(failure.error),
                    *old(session),
                    *final(session),
                    *old(pause),
                    *final(pause),
                )
            },
            Err(_) => false,
        },
{
    match run_step_tree(session, steps, pause) {
        Ok(report) => Ok(report),
        Err(RunError::Validation(error)) => Err(CliError::Sequence(SequenceError::StepValidation(error))),
        Err(RunError::Execution(failure)) => Err(CliError::SequenceExecution(failure)),
    }
}

/// The outcome of `sequence validate`.
pub open spec fn validation_reported(value: JsonValue, sequence_version: u64, defined: nat, timestamp: Seq<char>) -> bool {
    let m = members_of(value);
    &&& value is Object
    &&& m.len() == 6
    &&& event_head(m, "sequence_validate"@, timestamp)
    &&& value_at(m, 3, "ok"@, JsonValue::Bool(true))
    &&& number_at(m, 4, "sequence_version"@, sequence_version as int)
    &&& number_at(m, 5, "defined_steps"@, defined as int)
}

pub fn validate_output(sequence: &Sequence, timestamp: &str) -> (output: (JsonValue, String))
    requires
        preorder(sequence.steps@).len() <= usize::MAX,
    ensures
        validation_reported(output.0, sequence.sequence_version, preorder(sequence.steps@).len(), timestamp@),
        output.1@ == "Sequence valid: version "@ + decimal(sequence.sequence_version as nat) + ", "@
            + decimal(preorder(sequence.steps@).len()) + " defined steps"@,
{
    let defined = count_steps(sequence.steps.as_slice());
    let mut m: Vec<JsonMember> = Vec::new();
    push_member(&mut m, "event", text_value("sequence_validate"));
    push_member(&mut m, "schema_version", number_value(SCHEMA_VERSION));
    push_member(&mut m, "timestamp_utc", text_value(timestamp));
    push_member(&mut m, "ok", JsonValue::Bool(true));
    push_member(&mut m, "sequence_version", number_value(sequence.sequence_version));
    push_member(&mut m, "defined_steps", number_value(defined as u64));
    let mut text = String::from_str("Sequence valid: version ");
    push_decimal(&mut text, sequence.sequence_version as u128);
    text.append(", ");
    push_decimal(&mut text, defined as u128);
    text.append(" defined steps");
    (JsonValue::Object(m), text)
}

pub open spec fn outcome_tag(outcome: StepOutcome) -> Seq<char> {
    match outcome {
        StepOutcome::SendText { .. } => "send_text"@,
        StepOutcome::SendBytes { .. } => "send_bytes"@,
        StepOutcome::Wait { .. } => "wait"@,
        StepOutcome::Read { .. } => "read"@,
        StepOutcome::ReadUntil { .. } => "read_until"@,
        StepOutcome::Repeat { .. } => "repeat"@,
    }
}

/// A wait outcome's duration in whole milliseconds fits in a `u64`.
pub open spec fn reportable(outcome: StepOutcome) -> bool {
    outcome matches StepOutcome::Wait { requested_duration } ==> duration_nanos(requested_duration)
        / 1_000_000 <= u64::MAX
}

/// A step result as reported: its type, what it did, and its step ID last.
pub open spec fn result_reported(value: JsonValue, result: StepResult) -> bool {
    let m = members_of(value);
    &&& value is Object
    &&& text_at(m, 0, "type"@, outcome_tag(result.outcome))
    &&& match result.outcome {
        StepOutcome::SendText { bytes_written } | StepOutcome::SendBytes { bytes_written } => {
            &&& m.len() == 3
            &&& number_at(m, 1, "bytes_written"@, bytes_written as int)
            &&& text_at(m, 2, "step_id"@, result.step_id@)
        },
        StepOutcome::Wait { requested_duration } => {
            &&& m.len() == 3
            &&& number_at(m, 1, "requested_duration_ms"@, duration_nanos(requested_duration) / 1_000_000)
            &&& text_at(m, 2, "step_id"@, result.step_id@)
        },
        StepOutcome::Read { bytes } | StepOutcome::ReadUntil { bytes } => {
            &&& m.len() == 4
            &&& text_at(m, 1, "rx_hex"@, encode_hex_spec(bytes@))
            &&& number_at(m, 2, "rx_bytes"@, bytes@.len() as int)
            &&& text_at(m, 3, "step_id"@, result.step_id@)
        },
        StepOutcome::Repeat { completed_iterations } => {
            &&& m.len() == 3
            &&& number_at(m, 1, "completed_iterations"@, completed_iterations as int)
            &&& text_at(m, 2, "step_id"@, result.step_id@)
        },
    }
}

fn result_json(result: &StepResult) -> (value: JsonValue)
    requires
        reportable(result.outcome),
    ensures
        result_reported(value, *result),
{
    let mut m: Vec<JsonMember> = Vec::new();
    match &result.outcome {
        StepOutcome::SendText { bytes_written } => {
            push_member(&mut m, "type", text_value("send_text"));
            push_member(&mut m, "bytes_written", number_value(*bytes_written as u64));
        },
        StepOutcome::SendBytes { bytes_written } => {
            push_member(&mut m, "type", text_value("send_bytes"));
            push_member(&mut m, "bytes_written", number_value(*bytes_written as u64));
        },
        StepOutcome::Wait { requested_duration } => {
            push_member(&mut m, "type", text_value("wait"));
            let millis = duration_as_millis(requested_duration);
            push_member(&mut m, "requested_duration_ms", number_value(millis as u64));
        },
        StepOutcome::Read { bytes } => {
            push_member(&mut m, "type", text_value("read"));
            push_member(&mut m, "rx_hex", JsonValue::Text(encode_hex(bytes.as_slice())));
            push_member(&mut m, "rx_bytes", number_value(bytes.len() as u64));
        },
        StepOutcome::ReadUntil { bytes } => {
            push_member(&mut m, "type", text_value("read_until"));
            push_member(&mut m, "rx_hex", JsonValue::Text(encode_hex(bytes.as_slice())));
            push_member(&mut m, "rx_bytes", number_value(bytes.len() as u64));
        },
        StepOutcome::Repeat { completed_iterations } => {
            push_member(&mut m, "type", text_value("repeat"));
            push_member(&mut m, "completed_iterations", number_value(*completed_iterations as u64));
        },
    }
    push_member(&mut m, "step_id", text_value(result.step_id.as_str()));
    JsonValue::Object(m)
}

/// Every wait in the report can be reported in milliseconds.
pub open spec fn report_reportable(report: RunReport) -> bool {
    forall|i: int| 0 <= i < report.step_results@.len() ==> #[trigger] reportable(report.step_results@[i].outcome)
}

/// Whether every wait of the report can be reported in whole `u64` milliseconds.
pub fn is_reportable(report: &RunReport) -> (ok: bool)
    ensures
        ok == report_reportable(*report),
{
    let mut i: usize = 0;
    while i < report.step_results.len()
        invariant
            i <= report.step_results@.len(),
            forall|j: int| 0 <= j < i ==> #[trigger] reportable(report.step_results@[j].outcome),
        decreases report.step_results@.len() - i,
    {
        match &report.step_results[i].outcome {
            StepOutcome::Wait { requested_duration } => {
                if duration_as_millis(requested_duration) > u64::MAX as u128 {
                    assert(!reportable(report.step_results@[i as int].outcome));
                    return false;
                }
            },
            _ => {},
        }
        i = i + 1;
    }
    true
}

/// The step results of a run, in completion order.
pub fn step_results_json(report: &RunReport) -> (value: JsonValue)
    requires
        report_reportable(*report),
    ensures
        value matches JsonValue::Array(items) && items@.len() == report.step_results@.len()
            && forall|i: int| 0 <= i < items@.len() ==> #[trigger] result_reported(items@[i], report.step_results@[i]),
{
    let mut items: Vec<JsonValue> = Vec::new();
    let mut i: usize = 0;
    while i < report.step_results.len()
        invariant
            i <= report.step_results@.len(),
            items@.len() == i,
            report_reportable(*report),
            forall|j: int| 0 <= j < i ==> #[trigger] result_reported(items@[j], report.step_results@[j]),
        decreases report.step_results@.len() - i,
    {
        assert(reportable(report.step_results@[i as int].outcome));
        items.push(result_json(&report.step_results[i]));
        i = i + 1;
    }
    JsonValue::Array(items)
}

pub open spec fn direction_name(direction: Direction) -> Seq<char> {
    match direction {
        Direction::Tx => "tx"@,
        Direction::Rx => "rx"@,
    }
}

/// A transcript entry as reported: its step, its direction, and its bytes.
pub open spec fn entry_reported(value: JsonValue, entry: TranscriptEntry) -> bool {
    let m = members_of(value);
    &&& value is Object
    &&& m.len() == 4
    &&& text_at(m, 0, "step_id"@, entry.step_id@)
    &&& text_at(m, 1, "direction"@, direction_name(entry.direction))
    &&& text_at(m, 2, "hex"@, encode_hex_spec(entry.bytes@))
    &&& number_at(m, 3, "bytes"@, entry.bytes@.len() as int)
}

/// The transcript of a run, in order.
pub fn transcript_json(report: &RunReport) -> (value: JsonValue)
    ensures
        value matches JsonValue::Array(items) && items@.len() == report.transcript.entries@.len()
            && forall|i: int| 0 <= i < items@.len() ==> #[trigger] entry_reported(items@[i], report.transcript.entries@[i]),
{
    let entries = &report.transcript.entries;
    let mut items: Vec<JsonValue> = Vec::new();
    let mut i: usize = 0;
    while i < entries.len()
        invariant
            i <= entries@.len(),
            items@.len() == i,
            *entries == report.transcript.entries,
            forall|j: int| 0 <= j < i ==> #[trigger] entry_reported(items@[j], entries@[j]),
        decreases entries@.len() - i,
    {
        let entry = &entries[i];
        let mut m: Vec<JsonMember> = Vec::new();
        push_member(&mut m, "step_id", text_value(entry.step_id.as_str()));
        let direction = match entry.direction {
            Direction::Tx => "tx",
            Direction::Rx => "rx",
        };
        push_member(&mut m, "direction", text_value(direction));
        push_member(&mut m, "hex", JsonValue::Text(encode_hex(entry.bytes.as_slice())));
        push_member(&mut m, "bytes", number_value(entry.bytes.len() as u64));
        items.push(JsonValue::Object(m));
        i = i + 1;
    }
    JsonValue::Array(items)
}

/// The lines that show the received entries of the first entries of a transcript.
pub open spec fn rx_lines(entries: Seq<TranscriptEntry>, display: RxDisplay) -> Seq<char>
    decreases entries.len(),
{
    if entries.len() == 0 {
        Seq::empty()
    } else {
        let entry = entries.last();
        let before = rx_lines(entries.drop_last(), display);
        if entry.direction == Direction::Rx {
            if display == RxDisplay::Both {
                before + "\nRX "@ + entry.step_id@ + "\n"@ + rx_shown(entry.bytes@, display, Seq::empty())
            } else {
                before + "\nRX "@ + entry.step_id@ + ": "@ + rx_shown(entry.bytes@, display, Seq::empty())
            }
        } else {
            before
        }
    }
}

/// The outcome of a run: the mode, the step results and the transcript, then the port or
/// the simulation profile.
pub open spec fn run_reported(
    value: JsonValue,
    report: RunReport,
    sequence_version: u64,
    mode: RunMode,
    resource: Seq<char>,
    timestamp: Seq<char>,
) -> bool {
    let m = members_of(value);
    &&& value is Object
    &&& m.len() == 9
    &&& event_head(m, "sequence_run"@, timestamp)
    &&& value_at(m, 3, "ok"@, JsonValue::Bool(true))
    &&& number_at(m, 4, "sequence_version"@, sequence_version as int)
    &&& text_at(m, 5, "mode"@, if mode == RunMode::Live { "live"@ } else { "simulate"@ })
    &&& m[6].key@ == "step_results"@
    &&& m[6].value matches JsonValue::Array(results) && results@.len() == report.step_results@.len()
        && forall|i: int| 0 <= i < results@.len() ==> #[trigger] result_reported(results@[i], report.step_results@[i])
    &&& m[7].key@ == "transcript"@
    &&& m[7].value matches JsonValue::Array(entries) && entries@.len() == report.transcript.entries@.len()
        && forall|i: int| 0 <= i < entries@.len() ==> #[trigger] entry_reported(entries@[i], report.transcript.entries@[i])
    &&& text_at(m, 8, if mode == RunMode::Live { "port"@ } else { "simulation_profile_id"@ }, resource)
}

/// The outcome of a completed run, as a JSON event and as text.
pub fn run_output(
    report: &RunReport,
    sequence_version: u64,
    mode: RunMode,
    resource: &str,
    display: RxDisplay,
    timestamp: &str,
) -> (output: (JsonValue, String))
    requires
        report_reportable(*report),
    ensures
        run_reported(output.0, *report, sequence_version, mode, resource@, timestamp@),
        output.1@ == "Sequence run complete: "@ + decimal(report.step_results@.len()) + " step results"@
            + rx_lines(report.transcript.entries@, display),
{
    let mut m: Vec<JsonMember> = Vec::new();
    push_member(&mut m, "event", text_value("sequence_run"));
    push_member(&mut m, "schema_version", number_value(SCHEMA_VERSION));
    push_member(&mut m, "timestamp_utc", text_value(timestamp));
    push_member(&mut m, "ok", JsonValue::Bool(true));
    push_member(&mut m, "sequence_version", number_value(sequence_version));
    push_member(&mut m, "mode", text_value(if mode == RunMode::Live { "live" } else { "simulate" }));
    push_member(&mut m, "step_results", step_results_json(report));
    push_member(&mut m, "transcript", transcript_json(report));
    push_member(&mut m, if mode == RunMode::Live { "port" } else { "simulation_profile_id" }, text_value(resource));
    let mut text = String::from_str("Sequence run complete: ");
    push_decimal(&mut text, report.step_results.len() as u128);
    text.append(" step results");
    let ghost head = text@;
    let entries = &report.transcript.entries;
    let mut i: usize = 0;
    while i < entries.len()
        invariant
            i <= entries@.len(),
            *entries == report.transcript.entries,
            text@ == head + rx_lines(entries@.take(i as int), display),
        decreases entries@.len() - i,
    {
        let entry = &entries[i];
        proof {
            assert(entries@.take(i + 1).drop_last() =~= entries@.take(i as int));
            assert(entries@.take(i + 1).last() == entries@[i as int]);
            reveal_strlit("");
            assert(""@ =~= Seq::<char>::empty());
        }
        if entry.direction == Direction::Rx {
            let rendered = render_rx(entry.bytes.as_slice(), display, "");
            text.append("\nRX ");
            text.append(entry.step_id.as_str());
            if display == RxDisplay::Both {
                text.append("\n");
            } else {
                text.append(": ");
            }
            text.append(rendered.as_str());
        }
        i = i + 1;
    }
    assert(entries@.take(i as int) =~= entries@);
    (JsonValue::Object(m), text)
}

/// The `sequence run` output, or `None` when a wait of the report cannot be reported in
/// whole `u64` milliseconds.
pub fn run_report(
    report: &RunReport,
    sequence_version: u64,
    mode: RunMode,
    resource: &str,
    display: RxDisplay,
    timestamp: &str,
) -> (output: Option<(JsonValue, String)>)
    ensures
        output is None <==> !report_reportable(*report),
        output matches Some(o) ==> run_reported(o.0, *report, sequence_version, mode, resource@, timestamp@)
            && o.1@ == "Sequence run complete: "@ + decimal(report.step_results@.len()) + " step results"@
            + rx_lines(report.transcript.entries@, display),
{
    if is_reportable(report) {
        Some(run_output(report, sequence_version, mode, resource, display, timestamp))
    } else {
        None
    }
}

} // verus!
