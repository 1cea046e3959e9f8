//! A Sequence as a JSON document: turning the wire records into the library's types
//! (and back), with the errors the Sequence format defines.
use vstd::prelude::*;
use vstd::string::StringSliceAdditionalSpecFns;
use vstd::utf8::encode_utf8;

use crate::config::{DataBits, FlowControl, Parity, StopBits};
use crate::hex::{
    decode_hex, decode_hex_spec, encode_hex, encode_hex_spec, lemma_hex_round_trip, HexError,
};
use crate::json::{
    field, get_field, is_first_key, keys_within, lemma_first_key_unique, text_equals, text_of, unsigned_of, JsonMember,
    JsonNumber, JsonValue,
};
use crate::outside::{duration_from_millis, duration_nanos};
use crate::sequence::{
    duration_ms, exact_millis, has_bad_duration, no_bad_duration, sequence_valid,
    validation_result, Sequence, SequenceError, SequenceSerialConfig,
    SEQUENCE_VERSION,
};
use crate::step::{
    is_valid_step_id, lemma_preorder_append, lemma_preorder_single, lemma_steps_equiv_forall,
    lemma_steps_equiv_intro, preorder, step_equiv, steps_equiv, InvalidStepId, Step, StepId,
    StepKind,
};
use crate::wire::{
    lemma_steps_denote, lemma_steps_shape_ok, reveal_step_tags, sequence_denotes,
    sequence_shape_ok, serial_denotes, step_keys, step_shape_ok, steps_shape_ok, sequence_from_json, sequence_keys, serial_keys,
    step_common, step_denotes, steps_denote, u32_of, u8_of, usize_of, WireSequence, WireSerial,
    WireStep,
};

verus! {

pub open spec fn data_bits_from_wire(n: u8) -> Option<DataBits> {
    if n == 5 {
        Some(DataBits::Five)
    } else if n == 6 {
        Some(DataBits::Six)
    } else if n == 7 {
        Some(DataBits::Seven)
    } else if n == 8 {
        Some(DataBits::Eight)
    } else {
        None
    }
}

pub open spec fn parity_from_wire(name: Seq<char>) -> Option<Parity> {
    if name == "none"@ {
        Some(Parity::NoParity)
    } else if name == "odd"@ {
        Some(Parity::Odd)
    } else if name == "even"@ {
        Some(Parity::Even)
    } else {
        None
    }
}

pub open spec fn stop_bits_from_wire(n: u8) -> Option<StopBits> {
    if n == 1 {
        Some(StopBits::One)
    } else if n == 2 {
        Some(StopBits::Two)
    } else {
        None
    }
}

pub open spec fn flow_control_from_wire(name: Seq<char>) -> Option<FlowControl> {
    if name == "none"@ {
        Some(FlowControl::NoFlowControl)
    } else if name == "software"@ {
        Some(FlowControl::Software)
    } else if name == "hardware"@ {
        Some(FlowControl::Hardware)
    } else {
        None
    }
}

/// The first line setting of the wire record that names no known value.
pub open spec fn wire_serial_issue(wire: WireSerial) -> Option<&'static str> {
    if data_bits_from_wire(wire.data_bits) is None {
        Some("data_bits must be 5, 6, 7, or 8")
    } else if parity_from_wire(wire.parity@) is None {
        Some("invalid parity")
    } else if stop_bits_from_wire(wire.stop_bits) is None {
        Some("stop_bits must be 1 or 2")
    } else if flow_control_from_wire(wire.flow_control@) is None {
        Some("invalid flow_control")
    } else {
        None
    }
}

/// `config` holds what the wire record names, its timeout read as milliseconds.
pub open spec fn config_from_wire(config: SequenceSerialConfig, wire: WireSerial) -> bool {
    &&& config.baud_rate == wire.baud_rate
    &&& data_bits_from_wire(wire.data_bits) == Some(config.data_bits)
    &&& parity_from_wire(wire.parity@) == Some(config.parity)
    &&& stop_bits_from_wire(wire.stop_bits) == Some(config.stop_bits)
    &&& flow_control_from_wire(wire.flow_control@) == Some(config.flow_control)
    &&& duration_nanos(config.timeout) == wire.timeout_ms * 1_000_000
}

/// Turns the wire line settings into a `SequenceSerialConfig`.
pub fn serial_config_from_wire(wire: &WireSerial) -> (result: Result<
    SequenceSerialConfig,
    SequenceError,
>)
    ensures
        match wire_serial_issue(*wire) {
            Some(message) => result matches Err(SequenceError::InvalidSerial(m)) && m == message,
            None => result matches Ok(config) && config_from_wire(config, *wire),
        },
{
    let data_bits = if wire.data_bits == 5 {
        DataBits::Five
    } else if wire.data_bits == 6 {
        DataBits::Six
    } else if wire.data_bits == 7 {
        DataBits::Seven
    } else if wire.data_bits == 8 {
        DataBits::Eight
    } else {
        return Err(SequenceError::InvalidSerial("data_bits must be 5, 6, 7, or 8"));
    };
    let parity = if text_equals(wire.parity.as_str(), "none") {
        Parity::NoParity
    } else if text_equals(wire.parity.as_str(), "odd") {
        Parity::Odd
    } else if text_equals(wire.parity.as_str(), "even") {
        Parity::Even
    } else {
        return Err(SequenceError::InvalidSerial("invalid parity"));
    };
    let stop_bits = if wire.stop_bits == 1 {
        StopBits::One
    } else if wire.stop_bits == 2 {
        StopBits::Two
    } else {
        return Err(SequenceError::InvalidSerial("stop_bits must be 1 or 2"));
    };
    let flow_control = if text_equals(wire.flow_control.as_str(), "none") {
        FlowControl::NoFlowControl
    } else if text_equals(wire.flow_control.as_str(), "software") {
        FlowControl::Software
    } else if text_equals(wire.flow_control.as_str(), "hardware") {
        FlowControl::Hardware
    } else {
        return Err(SequenceError::InvalidSerial("invalid flow_control"));
    };
    Ok(SequenceSerialConfig {
        baud_rate: wire.baud_rate,
        data_bits,
        parity,
        stop_bits,
        flow_control,
        timeout: duration_from_millis(wire.timeout_ms),
    })
}

/// The bytes that hex text names, under the Sequence format's hex rules.
pub open spec fn hex_bytes(text: Seq<char>) -> Result<Seq<u8>, HexError> {
    decode_hex_spec(encode_utf8(text))
}

/// A problem met while turning a wire step into a step: the raw ID of the step, and
/// the hex field that failed to decode, or no field when the ID itself is invalid.
pub open spec fn id_problem(id: Seq<char>) -> Option<(Seq<char>, Option<&'static str>)> {
    if is_valid_step_id(id) {
        None
    } else {
        Some((id, None))
    }
}

/// The first problem in a wire step: its own hex field first, then its children in
/// order, then its ID.
pub open spec fn wire_step_problem(wire: WireStep) -> Option<(Seq<char>, Option<&'static str>)>
    decreases wire,
{
    match wire {
        WireStep::SendText { id, .. } => id_problem(id@),
        WireStep::SendBytes { id, hex } => if hex_bytes(hex@) is Err {
            Some((id@, Some("hex")))
        } else {
            id_problem(id@)
        },
        WireStep::Wait { id, .. } => id_problem(id@),
        WireStep::Read { id, .. } => id_problem(id@),
        WireStep::ReadUntil { id, delimiter_hex, .. } => if hex_bytes(delimiter_hex@) is Err {
            Some((id@, Some("delimiter_hex")))
        } else {
            id_problem(id@)
        },
        WireStep::Repeat { id, steps, .. } => {
            proof {
                assert(decreases_to!(wire => wire->Repeat_steps));
                assert(decreases_to!(wire->Repeat_steps => steps@));
            }
            match wire_steps_problem(steps@) {
                Some(problem) => Some(problem),
                None => id_problem(id@),
            }
        },
    }
}

/// The first problem among wire steps, in order.
pub open spec fn wire_steps_problem(steps: Seq<WireStep>) -> Option<
    (Seq<char>, Option<&'static str>),
>
    decreases steps,
{
    if steps.len() == 0 {
        None
    } else {
        match wire_step_problem(steps[0]) {
            Some(problem) => Some(problem),
            None => wire_steps_problem(steps.drop_first()),
        }
    }
}

/// The error the Sequence format reports for a conversion problem.
pub open spec fn error_for_problem(
    error: SequenceError,
    problem: (Seq<char>, Option<&'static str>),
) -> bool {
    match problem.1 {
        Some(name) => error matches SequenceError::InvalidHex { step_id, field } && step_id@
            == problem.0 && field == name,
        None => error matches SequenceError::InvalidStepId(InvalidStepId(text)) && text@
            == problem.0,
    }
}

/// `step` is what the wire step names: same ID, same kind, hex decoded, and the wait
/// read as milliseconds.
pub open spec fn step_from_wire(step: Step, wire: WireStep) -> bool
    decreases wire,
{
    match wire {
        WireStep::SendText { id, text } => {
            &&& step.id@ == id@
            &&& step.kind matches StepKind::SendText(t)
            &&& t@ == text@
        },
        WireStep::SendBytes { id, hex } => {
            &&& step.id@ == id@
            &&& step.kind matches StepKind::SendBytes(b)
            &&& hex_bytes(hex@) == Ok::<Seq<u8>, HexError>(b@)
        },
        WireStep::Wait { id, duration_ms } => {
            &&& step.id@ == id@
            &&& step.kind matches StepKind::Wait(d)
            &&& duration_nanos(d) == duration_ms * 1_000_000
        },
        WireStep::Read { id, max_bytes } => {
            &&& step.id@ == id@
            &&& step.kind matches StepKind::Read { max_bytes: m }
            &&& m == max_bytes
        },
        WireStep::ReadUntil { id, delimiter_hex, max_bytes } => {
            &&& step.id@ == id@
            &&& step.kind matches StepKind::ReadUntil { delimiter, max_bytes: m }
            &&& m == max_bytes
            &&& hex_bytes(delimiter_hex@) == Ok::<Seq<u8>, HexError>(delimiter@)
        },
        WireStep::Repeat { id, count, steps } => {
            proof {
                assert(decreases_to!(wire => wire->Repeat_steps));
                assert(decreases_to!(wire->Repeat_steps => steps@));
            }
            &&& step.id@ == id@
            &&& step.kind matches StepKind::Repeat { count: c, steps: children }
            &&& c == count
            &&& steps_from_wire(children@, steps@)
        },
    }
}

/// Each step is what the wire step at the same position names.
pub open spec fn steps_from_wire(steps: Seq<Step>, wires: Seq<WireStep>) -> bool
    decreases wires,
{
    if wires.len() == 0 {
        steps.len() == 0
    } else {
        &&& steps.len() == wires.len()
        &&& step_from_wire(steps[0], wires[0])
        &&& steps_from_wire(steps.drop_first(), wires.drop_first())
    }
}

pub proof fn lemma_steps_from_wire(steps: Seq<Step>, wires: Seq<WireStep>)
    ensures
        steps_from_wire(steps, wires) <==> (steps.len() == wires.len() && forall|i: int|
            0 <= i < wires.len() ==> #[trigger] step_from_wire(steps[i], wires[i])),
    decreases wires.len(),
{
    if wires.len() > 0 {
        lemma_steps_from_wire(steps.drop_first(), wires.drop_first());
        if steps.len() == wires.len() && forall|i: int|
            0 <= i < wires.len() ==> #[trigger] step_from_wire(steps[i], wires[i]) {
            assert(step_from_wire(steps[0], wires[0]));
            assert forall|i: int| 0 <= i < wires.drop_first().len() implies #[trigger] step_from_wire(
                steps.drop_first()[i],
                wires.drop_first()[i],
            ) by {
                assert(step_from_wire(steps[i + 1], wires[i + 1]));
            }
        }
        if steps_from_wire(steps, wires) {
            assert forall|i: int| 0 <= i < wires.len() implies #[trigger] step_from_wire(
                steps[i],
                wires[i],
            ) by {
                if i > 0 {
                    assert(step_from_wire(steps.drop_first()[i - 1], wires.drop_first()[i - 1]));
                }
            }
        }
    }
}

/// With no problem before position `k` and one at `k`, the first problem is the one at `k`.
pub proof fn lemma_first_problem(wires: Seq<WireStep>, k: int)
    requires
        0 <= k <= wires.len(),
        forall|j: int| 0 <= j < k ==> #[trigger] wire_step_problem(wires[j]) is None,
    ensures
        k < wires.len() && wire_step_problem(wires[k]) is Some ==> wire_steps_problem(wires)
            == wire_step_problem(wires[k]),
        k == wires.len() ==> wire_steps_problem(wires) is None,
    decreases k,
{
    if k > 0 {
        assert(wire_step_problem(wires[0]) is None);
        assert forall|j: int| 0 <= j < k - 1 implies #[trigger] wire_step_problem(
            wires.drop_first()[j],
        ) is None by {
            assert(wire_step_problem(wires[j + 1]) is None);
        }
        lemma_first_problem(wires.drop_first(), k - 1);
    }
}

/// Decodes one hex field of a wire step.
fn hex_field(text: &String, step_id: &String, name: &'static str) -> (result: Result<
    Vec<u8>,
    SequenceError,
>)
    ensures
        match hex_bytes(text@) {
            Ok(bytes) => result matches Ok(b) && b@ == bytes,
            Err(_) => result matches Err(SequenceError::InvalidHex { step_id: s, field })
                && s@ == step_id@ && field == name,
        },
{
    match decode_hex(text.as_str()) {
        Ok(bytes) => Ok(bytes),
        Err(_) => Err(SequenceError::InvalidHex { step_id: step_id.clone(), field: name }),
    }
}

fn step_id_from_wire(id: &String) -> (result: Result<StepId, SequenceError>)
    ensures
        match id_problem(id@) {
            Some(problem) => result matches Err(e) && error_for_problem(e, problem),
            None => result matches Ok(step_id) && step_id@ == id@,
        },
{
    match StepId::new(id.as_str()) {
        Ok(step_id) => Ok(step_id),
        Err(invalid) => Err(SequenceError::InvalidStepId(invalid)),
    }
}

/// Turns one wire step, and its children, into a step.
pub fn step_from_wire_record(wire: &WireStep) -> (result: Result<Step, SequenceError>)
    ensures
        match wire_step_problem(*wire) {
            Some(problem) => result matches Err(e) && error_for_problem(e, problem),
            None => result matches Ok(step) && step_from_wire(step, *wire),
        },
    decreases *wire,
{
    match wire {
        WireStep::SendText { id, text } => {
            let step_id = step_id_from_wire(id)?;
            Ok(Step { id: step_id, kind: StepKind::SendText(text.clone()) })
        },
        WireStep::SendBytes { id, hex } => {
            let bytes = hex_field(hex, id, "hex")?;
            let step_id = step_id_from_wire(id)?;
            Ok(Step { id: step_id, kind: StepKind::SendBytes(bytes) })
        },
        WireStep::Wait { id, duration_ms } => {
            let step_id = step_id_from_wire(id)?;
            Ok(Step { id: step_id, kind: StepKind::Wait(duration_from_millis(*duration_ms)) })
        },
        WireStep::Read { id, max_bytes } => {
            let step_id = step_id_from_wire(id)?;
            Ok(Step { id: step_id, kind: StepKind::Read { max_bytes: *max_bytes } })
        },
        WireStep::ReadUntil { id, delimiter_hex, max_bytes } => {
            let delimiter = hex_field(delimiter_hex, id, "delimiter_hex")?;
            let step_id = step_id_from_wire(id)?;
            Ok(Step { id: step_id, kind: StepKind::ReadUntil { delimiter, max_bytes: *max_bytes } })
        },
        WireStep::Repeat { id, count, steps } => {
            proof {
                assert(decreases_to!(*wire => wire->Repeat_steps));
            }
            let children = steps_from_wire_records(steps)?;
            let step_id = step_id_from_wire(id)?;
            Ok(Step { id: step_id, kind: StepKind::Repeat { count: *count, steps: children } })
        },
    }
}

/// Turns wire steps into steps, stopping at the first problem.
pub fn steps_from_wire_records(wires: &Vec<WireStep>) -> (result: Result<Vec<Step>, SequenceError>)
    ensures
        match wire_steps_problem(wires@) {
            Some(problem) => result matches Err(e) && error_for_problem(e, problem),
            None => result matches Ok(steps) && steps_from_wire(steps@, wires@),
        },
    decreases wires,
{
    let mut steps: Vec<Step> = Vec::new();
    let mut i: usize = 0;
    while i < wires.len()
        invariant
            i <= wires@.len(),
            steps@.len() == i,
            forall|j: int| 0 <= j < i ==> #[trigger] wire_step_problem(wires@[j]) is None,
            forall|j: int| 0 <= j < i ==> #[trigger] step_from_wire(steps@[j], wires@[j]),
        decreases wires@.len() - i,
    {
        proof {
            assert(decreases_to!(*wires => wires@));
            assert(decreases_to!(wires@ => wires@[i as int]));
        }
        match step_from_wire_record(&wires[i]) {
            Ok(step) => {
                steps.push(step);
                i = i + 1;
            },
            Err(error) => {
                proof {
                    lemma_first_problem(wires@, i as int);
                }
                return Err(error);
            },
        }
    }
    proof {
        lemma_first_problem(wires@, i as int);
        lemma_steps_from_wire(steps@, wires@);
    }
    Ok(steps)
}


/// The step object `value` reads as `step`: its `type` names the step's kind, its ID
/// is valid, every member holds what the step holds, and there is no other member.
pub open spec fn step_reads_as(value: JsonValue, step: Step) -> bool
    decreases value,
{
    match value {
        JsonValue::Object(members) => {
            let m = members@;
            &&& is_valid_step_id(step.id@)
            &&& match step.kind {
                StepKind::SendText(t) => {
                    &&& step_common(m, "send_text"@, step.id@)
                    &&& text_of(field(m, "text"@)) == Some(t@)
                },
                StepKind::SendBytes(b) => {
                    &&& step_common(m, "send_bytes"@, step.id@)
                    &&& text_of(field(m, "hex"@)) matches Some(h)
                    &&& hex_bytes(h) == Ok::<Seq<u8>, HexError>(b@)
                },
                StepKind::Wait(d) => {
                    &&& step_common(m, "wait"@, step.id@)
                    &&& unsigned_of(field(m, "duration_ms"@)) matches Some(ms)
                    &&& duration_nanos(d) == ms * 1_000_000
                },
                StepKind::Read { max_bytes } => {
                    &&& step_common(m, "read"@, step.id@)
                    &&& usize_of(field(m, "max_bytes"@)) == Some(max_bytes)
                },
                StepKind::ReadUntil { delimiter, max_bytes } => {
                    &&& step_common(m, "read_until"@, step.id@)
                    &&& text_of(field(m, "delimiter_hex"@)) matches Some(h)
                    &&& hex_bytes(h) == Ok::<Seq<u8>, HexError>(delimiter@)
                    &&& usize_of(field(m, "max_bytes"@)) == Some(max_bytes)
                },
                StepKind::Repeat { count, steps } => {
                    &&& step_common(m, "repeat"@, step.id@)
                    &&& usize_of(field(m, "count"@)) == Some(count)
                    &&& match field(m, "steps"@) {
                        Some(JsonValue::Array(items)) => {
                            proof {
                                let c = choose|c: int| is_first_key(m, "steps"@, c);
                                assert(decreases_to!(value => value->Object_0));
                                assert(decreases_to!(value->Object_0 => m));
                                assert(decreases_to!(m => m[c]));
                                assert(decreases_to!(m[c] => m[c].value));
                                assert(decreases_to!(m[c].value => m[c].value->Array_0));
                                assert(decreases_to!(m[c].value->Array_0 => items@));
                            }
                            steps_read_as(items@, steps@)
                        },
                        _ => false,
                    }
                },
            }
        },
        _ => false,
    }
}

/// Each JSON item reads as the step at the same position.
pub open spec fn steps_read_as(items: Seq<JsonValue>, steps: Seq<Step>) -> bool
    decreases items,
{
    if items.len() == 0 {
        steps.len() == 0
    } else {
        &&& steps.len() == items.len()
        &&& step_reads_as(items[0], steps[0])
        &&& steps_read_as(items.drop_first(), steps.drop_first())
    }
}

/// The `serial` object `value` reads as the line settings `config`.
pub open spec fn serial_reads_as(value: JsonValue, config: SequenceSerialConfig) -> bool {
    match value {
        JsonValue::Object(members) => {
            let m = members@;
            &&& keys_within(m, serial_keys())
            &&& u32_of(field(m, "baud_rate"@)) == Some(config.baud_rate)
            &&& u8_of(field(m, "data_bits"@)) matches Some(n)
            &&& data_bits_from_wire(n) == Some(config.data_bits)
            &&& text_of(field(m, "parity"@)) matches Some(p)
            &&& parity_from_wire(p) == Some(config.parity)
            &&& u8_of(field(m, "stop_bits"@)) matches Some(b)
            &&& stop_bits_from_wire(b) == Some(config.stop_bits)
            &&& text_of(field(m, "flow_control"@)) matches Some(f)
            &&& flow_control_from_wire(f) == Some(config.flow_control)
            &&& unsigned_of(field(m, "timeout_ms"@)) matches Some(ms)
            &&& duration_nanos(config.timeout) == ms * 1_000_000
        },
        _ => false,
    }
}

/// The JSON document `value` reads as the Sequence `sequence`.
pub open spec fn sequence_reads_as(value: JsonValue, sequence: Sequence) -> bool {
    match value {
        JsonValue::Object(members) => {
            let m = members@;
            &&& keys_within(m, sequence_keys())
            &&& unsigned_of(field(m, "sequence_version"@)) == Some(sequence.sequence_version)
            &&& field(m, "serial"@) matches Some(serial)
            &&& serial_reads_as(serial, sequence.serial)
            &&& field(m, "steps"@) matches Some(JsonValue::Array(items))
            &&& steps_read_as(items@, sequence.steps@)
        },
        _ => false,
    }
}

/// The value of the document's `sequence_version` member, when it is an unsigned integer.
pub open spec fn version_of(value: JsonValue) -> Option<u64> {
    match value {
        JsonValue::Object(members) => unsigned_of(field(members@, "sequence_version"@)),
        _ => None,
    }
}

/// `wire` converts into `sequence` with no problem.
pub open spec fn wire_converts_to(wire: WireSequence, sequence: Sequence) -> bool {
    &&& sequence.sequence_version == wire.sequence_version
    &&& config_from_wire(sequence.serial, wire.serial)
    &&& steps_from_wire(sequence.steps@, wire.steps@)
}

proof fn lemma_step_reads_as(value: JsonValue, wire: WireStep, step: Step)
    requires
        step_denotes(value, wire),
        step_from_wire(step, wire),
        wire_step_problem(wire) is None,
    ensures
        step_reads_as(value, step),
    decreases wire,
{
    match wire {
        WireStep::Repeat { steps: children, .. } => {
            let members = value->Object_0;
            let items = field(members@, "steps"@)->0->Array_0;
            let kids = step.kind->Repeat_steps;
            assert(decreases_to!(wire => wire->Repeat_steps));
            lemma_steps_read_as(items@, children@, kids@);
        },
        _ => {},
    }
}

proof fn lemma_steps_read_as(items: Seq<JsonValue>, wires: Seq<WireStep>, steps: Seq<Step>)
    requires
        steps_denote(items, wires),
        steps_from_wire(steps, wires),
        wire_steps_problem(wires) is None,
    ensures
        steps_read_as(items, steps),
    decreases wires,
{
    lemma_steps_denote(items, wires);
    lemma_steps_from_wire(steps, wires);
    lemma_no_problem(wires);
    assert forall|i: int| 0 <= i < items.len() implies #[trigger] step_reads_as(items[i], steps[i]) by {
        assert(step_denotes(items[i], wires[i]));
        assert(step_from_wire(steps[i], wires[i]));
        lemma_step_reads_as(items[i], wires[i], steps[i]);
    }
    lemma_steps_read_as_intro(items, steps);
}

proof fn lemma_no_problem(wires: Seq<WireStep>)
    ensures
        wire_steps_problem(wires) is None ==> forall|i: int|
            0 <= i < wires.len() ==> #[trigger] wire_step_problem(wires[i]) is None,
    decreases wires.len(),
{
    if wires.len() > 0 {
        lemma_no_problem(wires.drop_first());
        if wire_steps_problem(wires) is None {
            assert forall|i: int| 0 <= i < wires.len() implies #[trigger] wire_step_problem(
                wires[i],
            ) is None by {
                if i > 0 {
                    assert(wire_step_problem(wires.drop_first()[i - 1]) is None);
                }
            }
        }
    }
}

proof fn lemma_steps_read_as_intro(items: Seq<JsonValue>, steps: Seq<Step>)
    requires
        items.len() == steps.len(),
        forall|i: int| 0 <= i < items.len() ==> #[trigger] step_reads_as(items[i], steps[i]),
    ensures
        steps_read_as(items, steps),
    decreases items.len(),
{
    if items.len() > 0 {
        assert(step_reads_as(items[0], steps[0]));
        assert forall|i: int| 0 <= i < items.drop_first().len() implies #[trigger] step_reads_as(
            items.drop_first()[i],
            steps.drop_first()[i],
        ) by {
            assert(step_reads_as(items[i + 1], steps[i + 1]));
        }
        lemma_steps_read_as_intro(items.drop_first(), steps.drop_first());
    }
}

/// `error` is what reading a document stops at once the schema gave `wire`: a line
/// setting that names no known value, else the first step that does not convert, else
/// the first rule the converted Sequence breaks.
pub open spec fn rejects_wire(wire: WireSequence, error: SequenceError) -> bool {
    match wire_serial_issue(wire.serial) {
        Some(message) => error matches SequenceError::InvalidSerial(m) && m == message,
        None => match wire_steps_problem(wire.steps@) {
            Some(problem) => error_for_problem(error, problem),
            None => exists|sequence: Sequence|
                #[trigger] wire_converts_to(wire, sequence) && validation_result(
                    sequence,
                    Err(error),
                ),
        },
    }
}

impl Sequence {
    /// Reads a Sequence from its JSON document: the version is checked first, then the
    /// strict schema, then the line settings and steps are converted, and the result is
    /// validated.
    pub fn from_json_value(value: &JsonValue) -> (result: Result<Sequence, SequenceError>)
        ensures
            version_of(*value) is None ==> result matches Err(SequenceError::InvalidVersion),
            version_of(*value) matches Some(v) ==> (v != SEQUENCE_VERSION ==> (result matches Err(
                SequenceError::UnsupportedVersion(x)) && x == v)),
            version_of(*value) == Some(SEQUENCE_VERSION) ==> match result {
                Ok(sequence) => sequence_reads_as(*value, sequence) && sequence_valid(sequence),
                Err(SequenceError::Json(_)) => forall|wire: WireSequence|
                    !sequence_denotes(*value, wire),
                Err(error) => exists|wire: WireSequence|
                    #[trigger] sequence_denotes(*value, wire) && rejects_wire(wire, error),
            },
            (exists|wire: WireSequence| #[trigger] sequence_denotes(*value, wire))
                ==> !(result matches Err(SequenceError::Json(_))),
            (exists|sequence: Sequence| #[trigger] sequence_reads_as(*value, sequence)
                && sequence_valid(sequence)) ==> result is Ok,
    {
        let version = match value {
            JsonValue::Object(members) => match get_field(members, "sequence_version") {
                Some(JsonValue::Number(JsonNumber::Unsigned(n))) => Some(*n),
                _ => None,
            },
            _ => None,
        };
        match version {
            None => return Err(SequenceError::InvalidVersion),
            Some(v) => if v != SEQUENCE_VERSION {
                return Err(SequenceError::UnsupportedVersion(v));
            },
        }
        let ghost readable = exists|sequence: Sequence| #[trigger] sequence_reads_as(*value, sequence)
            && sequence_valid(sequence);
        let ghost target = choose|sequence: Sequence| #[trigger] sequence_reads_as(*value, sequence)
            && sequence_valid(sequence);
        let wire = match sequence_from_json(value) {
            Some(wire) => wire,
            None => {
                proof {
                    if readable {
                        lemma_document_shape(*value, target);
                    }
                }
                return Err(
                    SequenceError::Json(
                        String::from_str("document does not match the Sequence schema"),
                    ),
                );
            },
        };
        proof {
            if readable {
                lemma_document_agrees(*value, wire, target);
            }
        }
        let serial = match serial_config_from_wire(&wire.serial) {
            Ok(serial) => serial,
            Err(error) => return Err(error),
        };
        let steps = match steps_from_wire_records(&wire.steps) {
            Ok(steps) => steps,
            Err(error) => return Err(error),
        };
        let sequence = Sequence { sequence_version: wire.sequence_version, serial, steps };
        proof {
            assert(wire_converts_to(wire, sequence));
            if readable {
                lemma_equiv_valid(sequence, target);
            }
        }
        match sequence.validate() {
            Ok(()) => {
                proof {
                    let members = value->Object_0;
                    let items = field(members@, "steps"@)->0->Array_0;
                    lemma_steps_read_as(items@, wire.steps@, sequence.steps@);
                    let serial_value = field(members@, "serial"@)->0;
                    assert(serial_denotes(serial_value, wire.serial));
                    assert(serial_reads_as(serial_value, sequence.serial));
                    assert(sequence_reads_as(*value, sequence));
                }
                Ok(sequence)
            },
            Err(error) => Err(error),
        }
    }
}


/// The `type` tag a step kind is written with.
pub open spec fn step_tag(kind: StepKind) -> Seq<char> {
    match kind {
        StepKind::SendText(_) => "send_text"@,
        StepKind::SendBytes(_) => "send_bytes"@,
        StepKind::Wait(_) => "wait"@,
        StepKind::Read { .. } => "read"@,
        StepKind::ReadUntil { .. } => "read_until"@,
        StepKind::Repeat { .. } => "repeat"@,
    }
}

pub open spec fn text_member(member: JsonMember, key: Seq<char>, text: Seq<char>) -> bool {
    &&& member.key@ == key
    &&& member.value matches JsonValue::Text(t)
    &&& t@ == text
}

pub open spec fn number_member(member: JsonMember, key: Seq<char>, n: u64) -> bool {
    &&& member.key@ == key
    &&& member.value == JsonValue::Number(JsonNumber::Unsigned(n))
}

/// `value` is the object written for `step`: `type`, `id`, then the kind's own members
/// in their fixed order, bytes as lowercase hex and the wait in milliseconds.
pub open spec fn step_written_as(value: JsonValue, step: Step) -> bool
    decreases value,
{
    match value {
        JsonValue::Object(members) => {
            let m = members@;
            &&& m.len() >= 3
            &&& text_member(m[0], "type"@, step_tag(step.kind))
            &&& text_member(m[1], "id"@, step.id@)
            &&& match step.kind {
                StepKind::SendText(t) => m.len() == 3 && text_member(m[2], "text"@, t@),
                StepKind::SendBytes(b) => m.len() == 3 && text_member(
                    m[2],
                    "hex"@,
                    encode_hex_spec(b@),
                ),
                StepKind::Wait(d) => {
                    &&& m.len() == 3
                    &&& exact_millis(d) matches Some(ms)
                    &&& number_member(m[2], "duration_ms"@, ms)
                },
                StepKind::Read { max_bytes } => m.len() == 3 && number_member(
                    m[2],
                    "max_bytes"@,
                    max_bytes as u64,
                ),
                StepKind::ReadUntil { delimiter, max_bytes } => {
                    &&& m.len() == 4
                    &&& text_member(m[2], "delimiter_hex"@, encode_hex_spec(delimiter@))
                    &&& number_member(m[3], "max_bytes"@, max_bytes as u64)
                },
                StepKind::Repeat { count, steps } => {
                    &&& m.len() == 4
                    &&& number_member(m[2], "count"@, count as u64)
                    &&& m[3].key@ == "steps"@
                    &&& match m[3].value {
                        JsonValue::Array(items) => {
                            proof {
                                assert(decreases_to!(value => value->Object_0));
                                assert(decreases_to!(value->Object_0 => m));
                                assert(decreases_to!(m => m[3]));
                                assert(decreases_to!(m[3] => m[3].value));
                                assert(decreases_to!(m[3].value => m[3].value->Array_0));
                                assert(decreases_to!(m[3].value->Array_0 => items@));
                            }
                            steps_written_as(items@, steps@)
                        },
                        _ => false,
                    }
                },
            }
        },
        _ => false,
    }
}

pub open spec fn steps_written_as(items: Seq<JsonValue>, steps: Seq<Step>) -> bool
    decreases items,
{
    if items.len() == 0 {
        steps.len() == 0
    } else {
        &&& steps.len() == items.len()
        &&& step_written_as(items[0], steps[0])
        &&& steps_written_as(items.drop_first(), steps.drop_first())
    }
}

pub open spec fn data_bits_number(data_bits: DataBits) -> u64 {
    match data_bits {
        DataBits::Five => 5,
        DataBits::Six => 6,
        DataBits::Seven => 7,
        DataBits::Eight => 8,
    }
}

pub open spec fn parity_name(parity: Parity) -> Seq<char> {
    match parity {
        Parity::NoParity => "none"@,
        Parity::Odd => "odd"@,
        Parity::Even => "even"@,
    }
}

pub open spec fn stop_bits_number(stop_bits: StopBits) -> u64 {
    match stop_bits {
        StopBits::One => 1,
        StopBits::Two => 2,
    }
}

pub open spec fn flow_control_name(flow_control: FlowControl) -> Seq<char> {
    match flow_control {
        FlowControl::NoFlowControl => "none"@,
        FlowControl::Software => "software"@,
        FlowControl::Hardware => "hardware"@,
    }
}

/// `value` is the `serial` object written for `config`, members in their fixed order.
pub open spec fn serial_written_as(value: JsonValue, config: SequenceSerialConfig) -> bool {
    match value {
        JsonValue::Object(members) => {
            let m = members@;
            &&& m.len() == 6
            &&& number_member(m[0], "baud_rate"@, config.baud_rate as u64)
            &&& number_member(m[1], "data_bits"@, data_bits_number(config.data_bits))
            &&& text_member(m[2], "parity"@, parity_name(config.parity))
            &&& number_member(m[3], "stop_bits"@, stop_bits_number(config.stop_bits))
            &&& text_member(m[4], "flow_control"@, flow_control_name(config.flow_control))
            &&& exact_millis(config.timeout) matches Some(ms)
            &&& number_member(m[5], "timeout_ms"@, ms)
        },
        _ => false,
    }
}

/// `value` is the document written for `sequence`: `sequence_version`, `serial`, `steps`.
pub open spec fn sequence_written_as(value: JsonValue, sequence: Sequence) -> bool {
    match value {
        JsonValue::Object(members) => {
            let m = members@;
            &&& m.len() == 3
            &&& number_member(m[0], "sequence_version"@, sequence.sequence_version)
            &&& m[1].key@ == "serial"@
            &&& serial_written_as(m[1].value, sequence.serial)
            &&& m[2].key@ == "steps"@
            &&& m[2].value matches JsonValue::Array(items)
            &&& steps_written_as(items@, sequence.steps@)
        },
        _ => false,
    }
}

fn key(name: &str) -> (text: String)
    ensures
        text@ == name@,
{
    String::from_str(name)
}

fn text_entry(name: &str, text: String) -> (member: JsonMember)
    ensures
        text_member(member, name@, text@),
{
    JsonMember { key: key(name), value: JsonValue::Text(text) }
}

fn number_entry(name: &str, n: u64) -> (member: JsonMember)
    ensures
        number_member(member, name@, n),
{
    JsonMember { key: key(name), value: JsonValue::Number(JsonNumber::Unsigned(n)) }
}

/// The object written for one step and its children; only a wait that is not a whole
/// number of `u64` milliseconds stops it.
fn step_to_json(step: &Step) -> (result: Result<JsonValue, SequenceError>)
    ensures
        match result {
            Ok(value) => step_written_as(value, *step) && ids_valid(seq![*step]),
            Err(error) => error is InvalidDuration && !no_bad_duration(preorder(seq![*step])),
        },
    decreases *step,
{
    proof {
        lemma_preorder_single(*step);
    }
    let mut members: Vec<JsonMember> = Vec::new();
    let tag = match &step.kind {
        StepKind::SendText(_) => "send_text",
        StepKind::SendBytes(_) => "send_bytes",
        StepKind::Wait(_) => "wait",
        StepKind::Read { .. } => "read",
        StepKind::ReadUntil { .. } => "read_until",
        StepKind::Repeat { .. } => "repeat",
    };
    members.push(text_entry("type", key(tag)));
    members.push(text_entry("id", key(step.id.as_str())));
    match &step.kind {
        StepKind::SendText(text) => {
            members.push(text_entry("text", text.clone()));
        },
        StepKind::SendBytes(bytes) => {
            members.push(text_entry("hex", encode_hex(bytes.as_slice())));
        },
        StepKind::Wait(duration) => {
            match duration_ms(*duration) {
                Ok(ms) => members.push(number_entry("duration_ms", ms)),
                Err(()) => {
                    proof {
                        assert(has_bad_duration(preorder(seq![*step])[0]));
                    }
                    return Err(SequenceError::InvalidDuration { step_id: step.id.clone() });
                },
            }
        },
        StepKind::Read { max_bytes } => {
            members.push(number_entry("max_bytes", *max_bytes as u64));
        },
        StepKind::ReadUntil { delimiter, max_bytes } => {
            members.push(text_entry("delimiter_hex", encode_hex(delimiter.as_slice())));
            members.push(number_entry("max_bytes", *max_bytes as u64));
        },
        StepKind::Repeat { count, steps } => {
            members.push(number_entry("count", *count as u64));
            proof {
                assert(decreases_to!(step.kind => step.kind->steps));
            }
            let items = match steps_to_json(steps) {
                Ok(items) => items,
                Err(error) => {
                    proof {
                        let inner = preorder(steps@);
                        let k = choose|k: int| 0 <= k < inner.len() && has_bad_duration(#[trigger] inner[k]);
                        assert(preorder(seq![*step])[k + 1] == inner[k]);
                    }
                    return Err(error);
                },
            };
            members.push(JsonMember { key: key("steps"), value: JsonValue::Array(items) });
        },
    }
    proof {
        reveal_with_fuel(ids_valid, 2);
        assert(seq![*step][0] == *step);
        assert(seq![*step].drop_first() =~= Seq::<Step>::empty());
    }
    Ok(JsonValue::Object(members))
}

fn steps_to_json(steps: &Vec<Step>) -> (result: Result<Vec<JsonValue>, SequenceError>)
    ensures
        match result {
            Ok(items) => steps_written_as(items@, steps@) && ids_valid(steps@),
            Err(error) => error is InvalidDuration && !no_bad_duration(preorder(steps@)),
        },
    decreases steps,
{
    let mut items: Vec<JsonValue> = Vec::new();
    let mut i: usize = 0;
    while i < steps.len()
        invariant
            i <= steps@.len(),
            items@.len() == i,
            forall|j: int| 0 <= j < i ==> #[trigger] step_written_as(items@[j], steps@[j]),
            forall|j: int| 0 <= j < i ==> #[trigger] ids_valid(seq![steps@[j]]),
        decreases steps@.len() - i,
    {
        proof {
            assert(decreases_to!(*steps => steps@));
            assert(decreases_to!(steps@ => steps@[i as int]));
        }
        match step_to_json(&steps[i]) {
            Ok(item) => {
                items.push(item);
                i = i + 1;
            },
            Err(error) => {
                proof {
                    lemma_bad_duration_in_tree(steps@, i as int);
                }
                return Err(error);
            },
        }
    }
    proof {
        lemma_steps_written_as_intro(items@, steps@);
        lemma_ids_valid_intro(steps@);
    }
    Ok(items)
}

proof fn lemma_ids_valid_intro(steps: Seq<Step>)
    requires
        forall|j: int| 0 <= j < steps.len() ==> #[trigger] ids_valid(seq![steps[j]]),
    ensures
        ids_valid(steps),
    decreases steps.len(),
{
    if steps.len() > 0 {
        let rest = steps.drop_first();
        assert forall|j: int| 0 <= j < rest.len() implies #[trigger] ids_valid(seq![rest[j]]) by {
            assert(rest[j] == steps[j + 1]);
            assert(ids_valid(seq![steps[j + 1]]));
        }
        lemma_ids_valid_intro(rest);
        assert(ids_valid(seq![steps[0]]));
        reveal_with_fuel(ids_valid, 2);
        assert(seq![steps[0]][0] == steps[0]);
    }
}

proof fn lemma_bad_duration_in_tree(steps: Seq<Step>, i: int)
    requires
        0 <= i < steps.len(),
        !no_bad_duration(preorder(seq![steps[i]])),
    ensures
        !no_bad_duration(preorder(steps)),
{
    assert(steps =~= steps.take(i) + seq![steps[i]] + steps.skip(i + 1));
    lemma_preorder_append(steps.take(i) + seq![steps[i]], steps.skip(i + 1));
    lemma_preorder_append(steps.take(i), seq![steps[i]]);
    let inner = preorder(seq![steps[i]]);
    let k = choose|k: int| 0 <= k < inner.len() && has_bad_duration(#[trigger] inner[k]);
    let offset = preorder(steps.take(i)).len();
    assert(preorder(steps)[offset + k] == inner[k]);
}

proof fn lemma_steps_written_as_intro(items: Seq<JsonValue>, steps: Seq<Step>)
    requires
        items.len() == steps.len(),
        forall|i: int| 0 <= i < items.len() ==> #[trigger] step_written_as(items[i], steps[i]),
    ensures
        steps_written_as(items, steps),
    decreases items.len(),
{
    if items.len() > 0 {
        assert(step_written_as(items[0], steps[0]));
        assert forall|i: int| 0 <= i < items.drop_first().len() implies #[trigger] step_written_as(
            items.drop_first()[i],
            steps.drop_first()[i],
        ) by {
            assert(step_written_as(items[i + 1], steps[i + 1]));
        }
        lemma_steps_written_as_intro(items.drop_first(), steps.drop_first());
    }
}


fn serial_to_json(config: &SequenceSerialConfig) -> (result: Result<JsonValue, SequenceError>)
    ensures
        match result {
            Ok(value) => serial_written_as(value, *config),
            Err(error) => exact_millis(config.timeout) is None && error
                == SequenceError::InvalidSerial("timeout must be representable as u64 milliseconds"),
        },
{
    let mut members: Vec<JsonMember> = Vec::new();
    members.push(number_entry("baud_rate", config.baud_rate as u64));
    let data_bits: u64 = match config.data_bits {
        DataBits::Five => 5,
        DataBits::Six => 6,
        DataBits::Seven => 7,
        DataBits::Eight => 8,
    };
    members.push(number_entry("data_bits", data_bits));
    let parity = match config.parity {
        Parity::NoParity => "none",
        Parity::Odd => "odd",
        Parity::Even => "even",
    };
    members.push(text_entry("parity", key(parity)));
    let stop_bits: u64 = match config.stop_bits {
        StopBits::One => 1,
        StopBits::Two => 2,
    };
    members.push(number_entry("stop_bits", stop_bits));
    let flow_control = match config.flow_control {
        FlowControl::NoFlowControl => "none",
        FlowControl::Software => "software",
        FlowControl::Hardware => "hardware",
    };
    members.push(text_entry("flow_control", key(flow_control)));
    match duration_ms(config.timeout) {
        Ok(ms) => members.push(number_entry("timeout_ms", ms)),
        Err(()) => {
            return Err(
                SequenceError::InvalidSerial("timeout must be representable as u64 milliseconds"),
            );
        },
    }
    Ok(JsonValue::Object(members))
}

impl Sequence {
    /// The JSON document of a valid Sequence; an invalid one is refused with the error
    /// that validation reports.
    pub fn to_json_value(&self) -> (result: Result<JsonValue, SequenceError>)
        ensures
            match result {
                Ok(value) => sequence_valid(*self) && ids_valid(self.steps@) && sequence_written_as(
                    value,
                    *self,
                ),
                Err(error) => validation_result(*self, Err(error)),
            },
            sequence_valid(*self) ==> result is Ok,
    {
        match self.validate() {
            Ok(()) => {},
            Err(error) => return Err(error),
        }
        let serial = match serial_to_json(&self.serial) {
            Ok(serial) => serial,
            Err(error) => return Err(error),
        };
        let items = match steps_to_json(&self.steps) {
            Ok(items) => items,
            Err(error) => return Err(error),
        };
        let mut members: Vec<JsonMember> = Vec::new();
        members.push(number_entry("sequence_version", self.sequence_version));
        members.push(JsonMember { key: key("serial"), value: serial });
        members.push(JsonMember { key: key("steps"), value: JsonValue::Array(items) });
        Ok(JsonValue::Object(members))
    }
}


/// Every step ID in the tree is valid, as `StepId::new` guarantees of the IDs it makes.
pub open spec fn ids_valid(steps: Seq<Step>) -> bool
    decreases steps,
{
    if steps.len() == 0 {
        true
    } else {
        &&& is_valid_step_id(steps[0].id@)
        &&& match steps[0].kind {
            StepKind::Repeat { steps: children, .. } => {
                proof {
                    assert(decreases_to!(steps => steps[0]));
                    assert(decreases_to!(steps[0] => steps[0].kind));
                    assert(decreases_to!(steps[0].kind => steps[0].kind->steps));
                    assert(decreases_to!(steps[0].kind->steps => children@));
                }
                ids_valid(children@)
            },
            _ => true,
        }
        &&& ids_valid(steps.drop_first())
    }
}

proof fn reveal_document_keys()
    ensures
        "type"@ != "id"@,
        "type"@ != "text"@,
        "id"@ != "text"@,
        "type"@ != "hex"@,
        "id"@ != "hex"@,
        "type"@ != "duration_ms"@,
        "id"@ != "duration_ms"@,
        "type"@ != "max_bytes"@,
        "id"@ != "max_bytes"@,
        "delimiter_hex"@ != "max_bytes"@,
        "type"@ != "delimiter_hex"@,
        "id"@ != "delimiter_hex"@,
        "type"@ != "count"@,
        "id"@ != "count"@,
        "type"@ != "steps"@,
        "id"@ != "steps"@,
        "count"@ != "steps"@,
        "baud_rate"@ != "data_bits"@,
        "baud_rate"@ != "parity"@,
        "data_bits"@ != "parity"@,
        "baud_rate"@ != "stop_bits"@,
        "data_bits"@ != "stop_bits"@,
        "parity"@ != "stop_bits"@,
        "baud_rate"@ != "flow_control"@,
        "data_bits"@ != "flow_control"@,
        "parity"@ != "flow_control"@,
        "stop_bits"@ != "flow_control"@,
        "baud_rate"@ != "timeout_ms"@,
        "data_bits"@ != "timeout_ms"@,
        "parity"@ != "timeout_ms"@,
        "stop_bits"@ != "timeout_ms"@,
        "flow_control"@ != "timeout_ms"@,
        "sequence_version"@ != "serial"@,
        "sequence_version"@ != "steps"@,
        "serial"@ != "steps"@,
        "none"@ != "odd"@,
        "none"@ != "even"@,
        "odd"@ != "even"@,
        "none"@ != "software"@,
        "none"@ != "hardware"@,
        "software"@ != "hardware"@,
{
    reveal_strlit("type");
    reveal_strlit("id");
    reveal_strlit("text");
    reveal_strlit("hex");
    reveal_strlit("duration_ms");
    reveal_strlit("max_bytes");
    reveal_strlit("delimiter_hex");
    reveal_strlit("count");
    reveal_strlit("steps");
    reveal_strlit("baud_rate");
    reveal_strlit("data_bits");
    reveal_strlit("parity");
    reveal_strlit("stop_bits");
    reveal_strlit("flow_control");
    reveal_strlit("timeout_ms");
    reveal_strlit("sequence_version");
    reveal_strlit("serial");
    reveal_strlit("none");
    reveal_strlit("odd");
    reveal_strlit("even");
    reveal_strlit("software");
    reveal_strlit("hardware");
    assert("type"@.len() == 4 && "id"@.len() == 2 && "text"@.len() == 4 && "hex"@.len() == 3);
    assert("duration_ms"@.len() == 11 && "max_bytes"@.len() == 9 && "delimiter_hex"@.len() == 13);
    assert("count"@.len() == 5 && "steps"@.len() == 5 && "baud_rate"@.len() == 9);
    assert("data_bits"@.len() == 9 && "parity"@.len() == 6 && "stop_bits"@.len() == 9);
    assert("flow_control"@.len() == 12 && "timeout_ms"@.len() == 10);
    assert("sequence_version"@.len() == 16 && "serial"@.len() == 6);
    assert("none"@.len() == 4 && "odd"@.len() == 3 && "even"@.len() == 4);
    assert("software"@.len() == 8 && "hardware"@.len() == 8);
    assert("type"@[1] != "text"@[1]);
    assert("count"@[0] != "steps"@[0]);
    assert("baud_rate"@[0] != "data_bits"@[0]);
    assert("baud_rate"@[0] != "stop_bits"@[0]);
    assert("data_bits"@[0] != "stop_bits"@[0]);
    assert("none"@[0] != "even"@[0]);
    assert("software"@[0] != "hardware"@[0]);
}

/// Each line setting reads back from the name or number a document writes for it.
pub proof fn lemma_line_setting_names_read_back(
    data_bits: DataBits,
    parity: Parity,
    stop_bits: StopBits,
    flow_control: FlowControl,
)
    ensures
        data_bits_from_wire(data_bits_number(data_bits) as u8) == Some(data_bits),
        parity_from_wire(parity_name(parity)) == Some(parity),
        stop_bits_from_wire(stop_bits_number(stop_bits) as u8) == Some(stop_bits),
        flow_control_from_wire(flow_control_name(flow_control)) == Some(flow_control),
{
    reveal_document_keys();
}

proof fn lemma_millis_exact(d: std::time::Duration)
    requires
        exact_millis(d) is Some,
    ensures
        duration_nanos(d) == exact_millis(d)->0 * 1_000_000,
{
}

proof fn lemma_step_reads_back(value: JsonValue, step: Step)
    requires
        step_written_as(value, step),
        ids_valid(seq![step]),
    ensures
        step_reads_as(value, step),
    decreases step,
{
    reveal_document_keys();
    reveal_step_tags();
    let members = value->Object_0;
    let m = members@;
    assert(is_first_key(m, "type"@, 0));
    assert(is_first_key(m, "id"@, 1));
    lemma_first_key_unique(m, "type"@, 0);
    lemma_first_key_unique(m, "id"@, 1);
    assert(is_valid_step_id(seq![step][0].id@));
    let allowed = step_keys(step_tag(step.kind));
    match step.kind {
        StepKind::SendText(t) => {
            assert(is_first_key(m, "text"@, 2));
            lemma_first_key_unique(m, "text"@, 2);
            assert(allowed[0] == "type"@ && allowed[1] == "id"@ && allowed[2] == "text"@);
            assert(keys_within(m, allowed));
        },
        StepKind::SendBytes(b) => {
            assert(is_first_key(m, "hex"@, 2));
            lemma_first_key_unique(m, "hex"@, 2);
            lemma_hex_round_trip(b@);
            assert(allowed[0] == "type"@ && allowed[1] == "id"@ && allowed[2] == "hex"@);
            assert(keys_within(m, allowed));
        },
        StepKind::Wait(d) => {
            assert(is_first_key(m, "duration_ms"@, 2));
            lemma_first_key_unique(m, "duration_ms"@, 2);
            lemma_millis_exact(d);
            assert(allowed[0] == "type"@ && allowed[1] == "id"@ && allowed[2] == "duration_ms"@);
            assert(keys_within(m, allowed));
        },
        StepKind::Read { max_bytes } => {
            assert(is_first_key(m, "max_bytes"@, 2));
            lemma_first_key_unique(m, "max_bytes"@, 2);
            assert(allowed[0] == "type"@ && allowed[1] == "id"@ && allowed[2] == "max_bytes"@);
            assert(keys_within(m, allowed));
        },
        StepKind::ReadUntil { delimiter, max_bytes } => {
            assert(is_first_key(m, "delimiter_hex"@, 2));
            assert(is_first_key(m, "max_bytes"@, 3));
            lemma_first_key_unique(m, "delimiter_hex"@, 2);
            lemma_first_key_unique(m, "max_bytes"@, 3);
            lemma_hex_round_trip(delimiter@);
            assert(allowed[0] == "type"@ && allowed[1] == "id"@ && allowed[2] == "delimiter_hex"@
                && allowed[3] == "max_bytes"@);
            assert(keys_within(m, allowed));
        },
        StepKind::Repeat { count, steps: children } => {
            assert(is_first_key(m, "count"@, 2));
            assert(is_first_key(m, "steps"@, 3));
            lemma_first_key_unique(m, "count"@, 2);
            lemma_first_key_unique(m, "steps"@, 3);
            assert(allowed[0] == "type"@ && allowed[1] == "id"@ && allowed[2] == "count"@
                && allowed[3] == "steps"@);
            assert(keys_within(m, allowed));
            let items = m[3].value->Array_0;
            assert(decreases_to!(step => step.kind));
            assert(decreases_to!(step.kind => step.kind->steps));
            assert(decreases_to!(step.kind->steps => children@));
            lemma_steps_read_back(items@, children@);
        },
    }
}

proof fn lemma_steps_read_back(items: Seq<JsonValue>, steps: Seq<Step>)
    requires
        steps_written_as(items, steps),
        ids_valid(steps),
    ensures
        steps_read_as(items, steps),
    decreases steps,
{
    if steps.len() > 0 {
        assert(ids_valid(seq![steps[0]])) by {
            reveal_with_fuel(ids_valid, 2);
            assert(seq![steps[0]][0] == steps[0]);
            assert(seq![steps[0]].drop_first() =~= Seq::<Step>::empty());
        }
        lemma_step_reads_back(items[0], steps[0]);
        lemma_steps_read_back(items.drop_first(), steps.drop_first());
    }
}

/// What is written for a Sequence reads back as that Sequence: the document that
/// `to_json_value` produces holds every setting and step, with hex and milliseconds
/// that decode to the same bytes and durations.
pub proof fn lemma_written_document_reads_back(value: JsonValue, sequence: Sequence)
    requires
        sequence_written_as(value, sequence),
        ids_valid(sequence.steps@),
    ensures
        sequence_reads_as(value, sequence),
{
    reveal_document_keys();
    let m = value->Object_0@;
    assert(is_first_key(m, "sequence_version"@, 0));
    assert(is_first_key(m, "serial"@, 1));
    assert(is_first_key(m, "steps"@, 2));
    lemma_first_key_unique(m, "sequence_version"@, 0);
    lemma_first_key_unique(m, "serial"@, 1);
    lemma_first_key_unique(m, "steps"@, 2);
    let allowed = sequence_keys();
    assert(allowed[0] == "sequence_version"@ && allowed[1] == "serial"@ && allowed[2] == "steps"@);
    assert(keys_within(m, allowed));
    let s = m[1].value->Object_0@;
    assert(is_first_key(s, "baud_rate"@, 0));
    assert(is_first_key(s, "data_bits"@, 1));
    assert(is_first_key(s, "parity"@, 2));
    assert(is_first_key(s, "stop_bits"@, 3));
    assert(is_first_key(s, "flow_control"@, 4));
    assert(is_first_key(s, "timeout_ms"@, 5));
    lemma_first_key_unique(s, "baud_rate"@, 0);
    lemma_first_key_unique(s, "data_bits"@, 1);
    lemma_first_key_unique(s, "parity"@, 2);
    lemma_first_key_unique(s, "stop_bits"@, 3);
    lemma_first_key_unique(s, "flow_control"@, 4);
    lemma_first_key_unique(s, "timeout_ms"@, 5);
    let serial_allowed = serial_keys();
    assert(serial_allowed[0] == "baud_rate"@ && serial_allowed[1] == "data_bits"@
        && serial_allowed[2] == "parity"@ && serial_allowed[3] == "stop_bits"@
        && serial_allowed[4] == "flow_control"@ && serial_allowed[5] == "timeout_ms"@);
    assert(keys_within(s, serial_allowed));
    lemma_millis_exact(sequence.serial.timeout);
    assert(serial_reads_as(m[1].value, sequence.serial));
    lemma_steps_read_back(m[2].value->Array_0@, sequence.steps@);
}


/// Two line settings say the same.
pub open spec fn config_equiv(a: SequenceSerialConfig, b: SequenceSerialConfig) -> bool {
    &&& a.baud_rate == b.baud_rate
    &&& a.data_bits == b.data_bits
    &&& a.parity == b.parity
    &&& a.stop_bits == b.stop_bits
    &&& a.flow_control == b.flow_control
    &&& duration_nanos(a.timeout) == duration_nanos(b.timeout)
}

/// Two Sequences define the same thing.
pub open spec fn sequence_equiv(a: Sequence, b: Sequence) -> bool {
    &&& a.sequence_version == b.sequence_version
    &&& config_equiv(a.serial, b.serial)
    &&& steps_equiv(a.steps@, b.steps@)
}

/// What validation looks at of one step: its ID, its own issue, and its wait.
pub open spec fn same_checks(x: Step, y: Step) -> bool {
    &&& x.id@ == y.id@
    &&& crate::step::local_issue(x) == crate::step::local_issue(y)
    &&& has_bad_duration(x) == has_bad_duration(y)
}

pub open spec fn checks_pointwise(xs: Seq<Step>, ys: Seq<Step>) -> bool {
    &&& xs.len() == ys.len()
    &&& forall|k: int| 0 <= k < xs.len() ==> #[trigger] same_checks(xs[k], ys[k])
}

proof fn lemma_checks_concat(x1: Seq<Step>, y1: Seq<Step>, x2: Seq<Step>, y2: Seq<Step>)
    requires
        checks_pointwise(x1, y1),
        checks_pointwise(x2, y2),
    ensures
        checks_pointwise(x1 + x2, y1 + y2),
{
    assert forall|k: int| 0 <= k < (x1 + x2).len() implies #[trigger] same_checks((x1 + x2)[k], (y1 + y2)[k]) by {
        if k < x1.len() {
            assert(same_checks(x1[k], y1[k]));
        } else {
            assert(same_checks(x2[k - x1.len()], y2[k - x1.len()]));
        }
    }
}

/// Equivalent step trees have pre-orders that validation cannot tell apart.
proof fn lemma_preorder_checks(a: Seq<Step>, b: Seq<Step>)
    requires
        steps_equiv(a, b),
    ensures
        checks_pointwise(preorder(a), preorder(b)),
    decreases a,
{
    if a.len() > 0 {
        let x = a[0];
        let y = b[0];
        assert(step_equiv(x, y));
        assert(same_checks(x, y));
        let nested_a = match x.kind {
            StepKind::Repeat { steps: children, .. } => preorder(children@),
            _ => Seq::empty(),
        };
        let nested_b = match y.kind {
            StepKind::Repeat { steps: children, .. } => preorder(children@),
            _ => Seq::empty(),
        };
        match x.kind {
            StepKind::Repeat { steps: children, .. } => {
                assert(decreases_to!(a => a[0]));
                assert(decreases_to!(a[0] => a[0].kind));
                assert(decreases_to!(a[0].kind => a[0].kind->steps));
                assert(decreases_to!(a[0].kind->steps => children@));
                lemma_preorder_checks(children@, y.kind->steps@);
            },
            _ => {
                assert(checks_pointwise(nested_a, nested_b));
            },
        }
        lemma_preorder_checks(a.drop_first(), b.drop_first());
        assert(checks_pointwise(seq![x], seq![y]));
        lemma_checks_concat(seq![x], seq![y], nested_a, nested_b);
        lemma_checks_concat(seq![x] + nested_a, seq![y] + nested_b, preorder(a.drop_first()), preorder(b.drop_first()));
    }
}

/// Equivalent Sequences are equally valid.
pub proof fn lemma_equiv_valid(a: Sequence, b: Sequence)
    requires
        sequence_equiv(a, b),
    ensures
        sequence_valid(a) <==> sequence_valid(b),
{
    lemma_preorder_checks(a.steps@, b.steps@);
    let fa = preorder(a.steps@);
    let fb = preorder(b.steps@);
    let empty = Seq::<Seq<char>>::empty();
    assert forall|k: int| 0 <= k < fa.len() implies #[trigger] crate::step::issue_at(empty, fa, k)
        == crate::step::issue_at(empty, fb, k) by {
        assert(same_checks(fa[k], fb[k]));
        assert(crate::step::step_ids(fa.take(k)) =~= crate::step::step_ids(fb.take(k))) by {
            assert forall|j: int| 0 <= j < k implies crate::step::step_ids(fa.take(k))[j]
                == crate::step::step_ids(fb.take(k))[j] by {
                assert(same_checks(fa[j], fb[j]));
            }
        }
    }
    assert forall|k: int| 0 <= k < fa.len() implies #[trigger] has_bad_duration(fa[k]) == has_bad_duration(fb[k]) by {
        assert(same_checks(fa[k], fb[k]));
    }
    if a.steps@.len() > 0 {
        assert(step_equiv(a.steps@[0], b.steps@[0]));
    }
    if crate::step::has_no_issue(empty, fa) {
        assert forall|k: int| 0 <= k < fb.len() implies #[trigger] crate::step::issue_at(empty, fb, k) is None by {
            assert(crate::step::issue_at(empty, fa, k) is None);
        }
    }
    if crate::step::has_no_issue(empty, fb) {
        assert forall|k: int| 0 <= k < fa.len() implies #[trigger] crate::step::issue_at(empty, fa, k) is None by {
            assert(crate::step::issue_at(empty, fb, k) is None);
        }
    }
    if no_bad_duration(fa) {
        assert forall|k: int| 0 <= k < fb.len() implies !has_bad_duration(#[trigger] fb[k]) by {
            assert(has_bad_duration(fa[k]) == has_bad_duration(fb[k]));
        }
    }
    if no_bad_duration(fb) {
        assert forall|k: int| 0 <= k < fa.len() implies !has_bad_duration(#[trigger] fa[k]) by {
            assert(has_bad_duration(fa[k]) == has_bad_duration(fb[k]));
        }
    }
}


proof fn lemma_steps_read_as_forall(items: Seq<JsonValue>, steps: Seq<Step>)
    ensures
        steps_read_as(items, steps) <==> (items.len() == steps.len() && forall|i: int|
            0 <= i < items.len() ==> #[trigger] step_reads_as(items[i], steps[i])),
    decreases items.len(),
{
    if items.len() > 0 {
        lemma_steps_read_as_forall(items.drop_first(), steps.drop_first());
        if items.len() == steps.len() && forall|i: int|
            0 <= i < items.len() ==> #[trigger] step_reads_as(items[i], steps[i]) {
            lemma_steps_read_as_intro(items, steps);
        }
        if steps_read_as(items, steps) {
            assert forall|i: int| 0 <= i < items.len() implies #[trigger] step_reads_as(items[i], steps[i]) by {
                if i > 0 {
                    assert(step_reads_as(items.drop_first()[i - 1], steps.drop_first()[i - 1]));
                }
            }
        }
    }
}

/// A step object that the schema reads as a wire step, and that reads as a step, gives a
/// wire step that converts with no problem into a step equivalent to it.
proof fn lemma_wire_agrees(value: JsonValue, wire: WireStep, step: Step)
    requires
        step_denotes(value, wire),
        step_reads_as(value, step),
    ensures
        wire_step_problem(wire) is None,
        forall|other: Step| #[trigger] step_from_wire(other, wire) ==> step_equiv(other, step),
    decreases wire,
{
    reveal_step_tags();
    let m = value->Object_0@;
    match wire {
        WireStep::Repeat { steps: children, .. } => {
            let items = field(m, "steps"@)->0->Array_0;
            let kids = step.kind->Repeat_steps;
            assert(decreases_to!(wire => wire->Repeat_steps));
            assert(decreases_to!(wire->Repeat_steps => children@));
            lemma_wires_agree(items@, children@, kids@);
            assert forall|other: Step| #[trigger] step_from_wire(other, wire) implies step_equiv(other, step) by {
                let other_kids = other.kind->Repeat_steps;
                assert(steps_from_wire(other_kids@, children@));
                assert(steps_equiv(other_kids@, kids@));
            }
        },
        _ => {},
    }
}

proof fn lemma_wires_agree(items: Seq<JsonValue>, wires: Seq<WireStep>, steps: Seq<Step>)
    requires
        steps_denote(items, wires),
        steps_read_as(items, steps),
    ensures
        wire_steps_problem(wires) is None,
        forall|others: Seq<Step>| #[trigger] steps_from_wire(others, wires) ==> steps_equiv(others, steps),
    decreases wires,
{
    lemma_steps_denote(items, wires);
    lemma_steps_read_as_forall(items, steps);
    assert forall|i: int| 0 <= i < wires.len() implies #[trigger] wire_step_problem(wires[i]) is None by {
        assert(step_denotes(items[i], wires[i]));
        assert(step_reads_as(items[i], steps[i]));
        lemma_wire_agrees(items[i], wires[i], steps[i]);
    }
    lemma_first_problem(wires, wires.len() as int);
    assert forall|others: Seq<Step>| #[trigger] steps_from_wire(others, wires) implies steps_equiv(others, steps) by {
        lemma_steps_from_wire(others, wires);
        assert forall|i: int| 0 <= i < others.len() implies #[trigger] step_equiv(others[i], steps[i]) by {
            assert(step_from_wire(others[i], wires[i]));
            assert(step_denotes(items[i], wires[i]));
            assert(step_reads_as(items[i], steps[i]));
            lemma_wire_agrees(items[i], wires[i], steps[i]);
        }
        lemma_steps_equiv_intro(others, steps);
    }
}

/// A document that the schema reads as `wire` and that reads as `sequence` gives a wire
/// record that converts with no problem into a Sequence equivalent to `sequence`.
proof fn lemma_document_agrees(value: JsonValue, wire: WireSequence, sequence: Sequence)
    requires
        sequence_denotes(value, wire),
        sequence_reads_as(value, sequence),
    ensures
        wire_serial_issue(wire.serial) is None,
        wire_steps_problem(wire.steps@) is None,
        forall|other: Sequence| #[trigger] wire_converts_to(wire, other) ==> sequence_equiv(other, sequence),
{
    reveal_document_keys();
    let m = value->Object_0@;
    let items = field(m, "steps"@)->0->Array_0;
    lemma_wires_agree(items@, wire.steps@, sequence.steps@);
    assert forall|other: Sequence| #[trigger] wire_converts_to(wire, other) implies sequence_equiv(other, sequence) by {
        assert(steps_from_wire(other.steps@, wire.steps@));
    }
}

proof fn lemma_step_shape(value: JsonValue, step: Step)
    requires
        step_reads_as(value, step),
    ensures
        step_shape_ok(value),
    decreases value,
{
    reveal_step_tags();
    let m = value->Object_0@;
    match step.kind {
        StepKind::Repeat { steps: kids, .. } => {
            let items = field(m, "steps"@)->0->Array_0;
            let c = choose|c: int| is_first_key(m, "steps"@, c);
            assert(decreases_to!(value => value->Object_0));
            assert(decreases_to!(value->Object_0 => m));
            assert(decreases_to!(m => m[c]));
            assert(decreases_to!(m[c] => m[c].value));
            assert(decreases_to!(m[c].value => m[c].value->Array_0));
            assert(decreases_to!(m[c].value->Array_0 => items@));
            lemma_steps_shape(items@, kids@);
        },
        _ => {},
    }
}

proof fn lemma_steps_shape(items: Seq<JsonValue>, steps: Seq<Step>)
    requires
        steps_read_as(items, steps),
    ensures
        steps_shape_ok(items),
    decreases items,
{
    lemma_steps_read_as_forall(items, steps);
    lemma_steps_shape_ok(items);
    assert forall|i: int| 0 <= i < items.len() implies #[trigger] step_shape_ok(items[i]) by {
        assert(step_reads_as(items[i], steps[i]));
        lemma_step_shape(items[i], steps[i]);
    }
}

proof fn lemma_document_shape(value: JsonValue, sequence: Sequence)
    requires
        sequence_reads_as(value, sequence),
    ensures
        sequence_shape_ok(value),
{
    let m = value->Object_0@;
    let items = field(m, "steps"@)->0->Array_0;
    lemma_steps_shape(items@, sequence.steps@);
}

proof fn lemma_step_reads_unique(value: JsonValue, a: Step, b: Step)
    requires
        step_reads_as(value, a),
        step_reads_as(value, b),
    ensures
        step_equiv(a, b),
    decreases value,
{
    reveal_step_tags();
    let m = value->Object_0@;
    match (a.kind, b.kind) {
        (StepKind::Repeat { steps: x, .. }, StepKind::Repeat { steps: y, .. }) => {
            let items = field(m, "steps"@)->0->Array_0;
            let c = choose|c: int| is_first_key(m, "steps"@, c);
            assert(decreases_to!(value => value->Object_0));
            assert(decreases_to!(value->Object_0 => m));
            assert(decreases_to!(m => m[c]));
            assert(decreases_to!(m[c] => m[c].value));
            assert(decreases_to!(m[c].value => m[c].value->Array_0));
            assert(decreases_to!(m[c].value->Array_0 => items@));
            lemma_steps_read_unique(items@, x@, y@);
        },
        _ => {},
    }
}

proof fn lemma_steps_read_unique(items: Seq<JsonValue>, a: Seq<Step>, b: Seq<Step>)
    requires
        steps_read_as(items, a),
        steps_read_as(items, b),
    ensures
        steps_equiv(a, b),
    decreases items,
{
    if items.len() > 0 {
        lemma_step_reads_unique(items[0], a[0], b[0]);
        lemma_steps_read_unique(items.drop_first(), a.drop_first(), b.drop_first());
    }
}

/// A document reads as at most one Sequence, up to `sequence_equiv`: two Sequences
/// that the same document reads as have the same version, line settings and steps.
pub proof fn lemma_document_reads_unique(value: JsonValue, a: Sequence, b: Sequence)
    requires
        sequence_reads_as(value, a),
        sequence_reads_as(value, b),
    ensures
        sequence_equiv(a, b),
{
    let m = value->Object_0@;
    let items = field(m, "steps"@)->0->Array_0;
    lemma_steps_read_unique(items@, a.steps@, b.steps@);
}

/// Saving a valid Sequence and loading the document back gives that Sequence: the
/// document written for it has version 1, reads as the Sequence, and every Sequence it
/// reads as defines the same line settings and steps. (`to_json_value` guarantees the
/// valid step IDs this asks for, as every `StepId` holds one.)
pub proof fn lemma_save_then_load(value: JsonValue, sequence: Sequence)
    requires
        sequence_valid(sequence),
        ids_valid(sequence.steps@),
        sequence_written_as(value, sequence),
    ensures
        version_of(value) == Some(SEQUENCE_VERSION),
        sequence_reads_as(value, sequence),
        forall|other: Sequence| #[trigger] sequence_reads_as(value, other) ==> sequence_equiv(
            other,
            sequence,
        ),
{
    lemma_written_document_reads_back(value, sequence);
    assert forall|other: Sequence| #[trigger] sequence_reads_as(value, other) implies sequence_equiv(
        other,
        sequence,
    ) by {
        lemma_document_reads_unique(value, other, sequence);
    }
}

} // verus!
