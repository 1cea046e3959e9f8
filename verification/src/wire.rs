//! The Sequence file's JSON shape: the wire records, the strict schema that reads them
//! from a JSON document, and the document written for them.
use vstd::prelude::*;

use crate::json::{
    field, get_field, lemma_first_key_unique, is_first_key, keys_are_within, keys_within, text_equals, text_of,
    unsigned_of, JsonMember, JsonNumber, JsonValue,
};

verus! {

pub struct WireSerial {
    pub baud_rate: u32,
    pub data_bits: u8,
    pub parity: String,
    pub stop_bits: u8,
    pub flow_control: String,
    pub timeout_ms: u64,
}

pub enum WireStep {
    SendText { id: String, text: String },
    SendBytes { id: String, hex: String },
    Wait { id: String, duration_ms: u64 },
    Read { id: String, max_bytes: usize },
    ReadUntil { id: String, delimiter_hex: String, max_bytes: usize },
    Repeat { id: String, count: usize, steps: Vec<WireStep> },
}

pub struct WireSequence {
    pub sequence_version: u64,
    pub serial: WireSerial,
    pub steps: Vec<WireStep>,
}

pub open spec fn usize_of(value: Option<JsonValue>) -> Option<usize> {
    match unsigned_of(value) {
        Some(n) => if n <= usize::MAX {
            Some(n as usize)
        } else {
            None
        },
        None => None,
    }
}

pub open spec fn u32_of(value: Option<JsonValue>) -> Option<u32> {
    match unsigned_of(value) {
        Some(n) => if n <= u32::MAX {
            Some(n as u32)
        } else {
            None
        },
        None => None,
    }
}

pub open spec fn u8_of(value: Option<JsonValue>) -> Option<u8> {
    match unsigned_of(value) {
        Some(n) => if n <= u8::MAX {
            Some(n as u8)
        } else {
            None
        },
        None => None,
    }
}

/// The member names a step of the given wire kind may have.
pub open spec fn step_keys(tag: Seq<char>) -> Seq<Seq<char>> {
    if tag == "send_text"@ {
        seq!["type"@, "id"@, "text"@]
    } else if tag == "send_bytes"@ {
        seq!["type"@, "id"@, "hex"@]
    } else if tag == "wait"@ {
        seq!["type"@, "id"@, "duration_ms"@]
    } else if tag == "read"@ {
        seq!["type"@, "id"@, "max_bytes"@]
    } else if tag == "read_until"@ {
        seq!["type"@, "id"@, "delimiter_hex"@, "max_bytes"@]
    } else {
        seq!["type"@, "id"@, "count"@, "steps"@]
    }
}

/// The members every step object shares: its `type` tag, its `id`, and no member
/// beyond those its kind allows.
pub open spec fn step_common(m: Seq<JsonMember>, tag: Seq<char>, id: Seq<char>) -> bool {
    &&& text_of(field(m, "type"@)) == Some(tag)
    &&& keys_within(m, step_keys(tag))
    &&& text_of(field(m, "id"@)) == Some(id)
}

/// The JSON object `value` is exactly the step `step`: its `type` tag names the step's
/// kind, it has every member that kind needs with the right JSON type, and no other.
pub open spec fn step_denotes(value: JsonValue, step: WireStep) -> bool
    decreases value,
{
    match value {
        JsonValue::Object(members) => {
            let m = members@;
            match step {
                WireStep::SendText { id, text } => step_common(m, "send_text"@, id@) && text_of(
                    field(m, "text"@),
                ) == Some(text@),
                WireStep::SendBytes { id, hex } => step_common(m, "send_bytes"@, id@) && text_of(
                    field(m, "hex"@),
                ) == Some(hex@),
                WireStep::Wait { id, duration_ms } => step_common(m, "wait"@, id@) && unsigned_of(
                    field(m, "duration_ms"@),
                ) == Some(duration_ms),
                WireStep::Read { id, max_bytes } => step_common(m, "read"@, id@) && usize_of(
                    field(m, "max_bytes"@),
                ) == Some(max_bytes),
                WireStep::ReadUntil { id, delimiter_hex, max_bytes } => step_common(m, "read_until"@, id@)
                    && text_of(field(m, "delimiter_hex"@)) == Some(delimiter_hex@) && usize_of(
                    field(m, "max_bytes"@),
                ) == Some(max_bytes),
                WireStep::Repeat { id, count, steps } => {
                    &&& step_common(m, "repeat"@, id@)
                    &&& usize_of(field(m, "count"@)) == Some(count)
                    &&& match field(m, "steps"@) {
                        Some(JsonValue::Array(items)) => {
                            proof {
                                let c = choose|c: int| is_first_key(m, "steps"@, c);
                                assert(decreases_to!(value => value->Object_0));
                                assert(decreases_to!(value->Object_0 => m));
                                assert(decreases_to!(m => m[c]));
                                assert(decreases_to!(m[c] => m[c].value));
                                assert(decreases_to!(m[c].value => m[c].value->Array_0));
                                assert(decreases_to!(m[c].value->Array_0 => items@));
                            }
                            steps_denote(items@, steps@)
                        },
                        _ => false,
                    }
                },
            }
        },
        _ => false,
    }
}

/// Each JSON item is exactly the step at the same position, and there are as many of
/// each.
pub open spec fn steps_denote(items: Seq<JsonValue>, steps: Seq<WireStep>) -> bool
    decreases items,
{
    if items.len() == 0 {
        steps.len() == 0
    } else {
        &&& steps.len() == items.len()
        &&& step_denotes(items.last(), steps.last())
        &&& steps_denote(items.drop_last(), steps.drop_last())
    }
}

pub proof fn lemma_steps_denote(items: Seq<JsonValue>, steps: Seq<WireStep>)
    ensures
        steps_denote(items, steps) <==> (items.len() == steps.len() && forall|i: int|
            0 <= i < items.len() ==> #[trigger] step_denotes(items[i], steps[i])),
    decreases items.len(),
{
    if items.len() > 0 {
        lemma_steps_denote(items.drop_last(), steps.drop_last());
        if items.len() == steps.len() && forall|i: int|
            0 <= i < items.len() ==> #[trigger] step_denotes(items[i], steps[i]) {
            assert(step_denotes(items[items.len() - 1], steps[steps.len() - 1]));
            assert forall|i: int| 0 <= i < items.drop_last().len() implies #[trigger] step_denotes(
                items.drop_last()[i],
                steps.drop_last()[i],
            ) by {
                assert(step_denotes(items[i], steps[i]));
            }
        }
        if steps_denote(items, steps) {
            assert forall|i: int| 0 <= i < items.len() implies #[trigger] step_denotes(
                items[i],
                steps[i],
            ) by {
                if i < items.len() - 1 {
                    assert(step_denotes(items.drop_last()[i], steps.drop_last()[i]));
                }
            }
        }
    }
}

/// The `type` tags of the six step kinds.
pub open spec fn known_tag(tag: Seq<char>) -> bool {
    ||| tag == "send_text"@
    ||| tag == "send_bytes"@
    ||| tag == "wait"@
    ||| tag == "read"@
    ||| tag == "read_until"@
    ||| tag == "repeat"@
}

/// The JSON value has the shape of a step: an object with a known `type`, a text `id`,
/// only the members its kind allows, and each member its kind needs with the right JSON
/// type; a repeat's children have that shape too.
pub open spec fn step_shape_ok(value: JsonValue) -> bool
    decreases value,
{
    match value {
        JsonValue::Object(members) => {
            let m = members@;
            let tag = text_of(field(m, "type"@));
            &&& tag is Some
            &&& known_tag(tag->0)
            &&& text_of(field(m, "id"@)) is Some
            &&& keys_within(m, step_keys(tag->0))
            &&& if tag->0 == "send_text"@ {
                text_of(field(m, "text"@)) is Some
            } else if tag->0 == "send_bytes"@ {
                text_of(field(m, "hex"@)) is Some
            } else if tag->0 == "wait"@ {
                unsigned_of(field(m, "duration_ms"@)) is Some
            } else if tag->0 == "read"@ {
                usize_of(field(m, "max_bytes"@)) is Some
            } else if tag->0 == "read_until"@ {
                text_of(field(m, "delimiter_hex"@)) is Some && usize_of(field(m, "max_bytes"@)) is Some
            } else {
                &&& usize_of(field(m, "count"@)) is Some
                &&& match field(m, "steps"@) {
                    Some(JsonValue::Array(items)) => {
                        proof {
                            let c = choose|c: int| is_first_key(m, "steps"@, c);
                            assert(decreases_to!(value => value->Object_0));
                            assert(decreases_to!(value->Object_0 => m));
                            assert(decreases_to!(m => m[c]));
                            assert(decreases_to!(m[c] => m[c].value));
                            assert(decreases_to!(m[c].value => m[c].value->Array_0));
                            assert(decreases_to!(m[c].value->Array_0 => items@));
                        }
                        steps_shape_ok(items@)
                    },
                    _ => false,
                }
            }
        },
        _ => false,
    }
}

pub open spec fn steps_shape_ok(items: Seq<JsonValue>) -> bool
    decreases items,
{
    if items.len() == 0 {
        true
    } else {
        step_shape_ok(items[0]) && steps_shape_ok(items.drop_first())
    }
}

pub proof fn lemma_steps_shape_ok(items: Seq<JsonValue>)
    ensures
        steps_shape_ok(items) <==> forall|i: int| 0 <= i < items.len() ==> #[trigger] step_shape_ok(items[i]),
    decreases items.len(),
{
    if items.len() > 0 {
        lemma_steps_shape_ok(items.drop_first());
        if forall|i: int| 0 <= i < items.len() ==> #[trigger] step_shape_ok(items[i]) {
            assert(step_shape_ok(items[0]));
            assert forall|i: int| 0 <= i < items.drop_first().len() implies #[trigger] step_shape_ok(
                items.drop_first()[i],
            ) by {
                assert(step_shape_ok(items[i + 1]));
            }
        }
        if steps_shape_ok(items) {
            assert forall|i: int| 0 <= i < items.len() implies #[trigger] step_shape_ok(items[i]) by {
                if i > 0 {
                    assert(step_shape_ok(items.drop_first()[i - 1]));
                }
            }
        }
    }
}

/// The JSON value has the shape of the `serial` object.
pub open spec fn serial_shape_ok(value: JsonValue) -> bool {
    match value {
        JsonValue::Object(members) => {
            let m = members@;
            &&& keys_within(m, serial_keys())
            &&& u32_of(field(m, "baud_rate"@)) is Some
            &&& u8_of(field(m, "data_bits"@)) is Some
            &&& text_of(field(m, "parity"@)) is Some
            &&& u8_of(field(m, "stop_bits"@)) is Some
            &&& text_of(field(m, "flow_control"@)) is Some
            &&& unsigned_of(field(m, "timeout_ms"@)) is Some
        },
        _ => false,
    }
}

/// The JSON document has the shape of a Sequence document.
pub open spec fn sequence_shape_ok(value: JsonValue) -> bool {
    match value {
        JsonValue::Object(members) => {
            let m = members@;
            &&& keys_within(m, sequence_keys())
            &&& unsigned_of(field(m, "sequence_version"@)) is Some
            &&& field(m, "serial"@) matches Some(serial)
            &&& serial_shape_ok(serial)
            &&& field(m, "steps"@) matches Some(JsonValue::Array(items))
            &&& steps_shape_ok(items@)
        },
        _ => false,
    }
}

pub proof fn lemma_first_key_same(members: Seq<JsonMember>, key: Seq<char>)
    ensures
        forall|a: int, b: int|
            is_first_key(members, key, a) && is_first_key(members, key, b) ==> a == b,
{
    assert forall|a: int, b: int|
        is_first_key(members, key, a) && is_first_key(members, key, b) implies a == b by {
        if a < b {
            assert(members[a].key@ != key);
        } else if b < a {
            assert(members[b].key@ != key);
        }
    }
}

/// What a repeat step's JSON says of its children: the first `steps` member is an
/// array whose items are exactly the child steps, in order.
proof fn lemma_repeat_children(
    value: JsonValue,
    members: Vec<JsonMember>,
    k: int,
    items: Vec<JsonValue>,
    step: WireStep,
)
    requires
        value == JsonValue::Object(members),
        step_denotes(value, step),
        step is Repeat,
        is_first_key(members@, "steps"@, k),
        members@[k].value == JsonValue::Array(items),
    ensures
        items@.len() == step->Repeat_steps@.len(),
        forall|i: int|
            0 <= i < items@.len() ==> #[trigger] step_denotes(items@[i], step->Repeat_steps@[i]),
{
    reveal_step_tags();
    lemma_first_key_unique(members@, "steps"@, k);
    lemma_steps_denote(items@, step->Repeat_steps@);
}

/// A repeat object whose first `steps` member is an array of items, each denoting the
/// matching child, denotes the repeat step with those children.
proof fn lemma_repeat_built(
    value: JsonValue,
    members: Vec<JsonMember>,
    k: int,
    items: Vec<JsonValue>,
    id: String,
    count: usize,
    steps: Vec<WireStep>,
)
    requires
        value == JsonValue::Object(members),
        step_common(members@, "repeat"@, id@),
        usize_of(field(members@, "count"@)) == Some(count),
        is_first_key(members@, "steps"@, k),
        members@[k].value == JsonValue::Array(items),
        items@.len() == steps@.len(),
        forall|i: int| 0 <= i < items@.len() ==> #[trigger] step_denotes(items@[i], steps@[i]),
    ensures
        step_denotes(value, WireStep::Repeat { id, count, steps }),
{
    reveal_step_tags();
    lemma_first_key_unique(members@, "steps"@, k);
    lemma_steps_denote(items@, steps@);
}

fn text_field(members: &Vec<JsonMember>, key: &str) -> (text: Option<String>)
    ensures
        match text {
            Some(t) => text_of(field(members@, key@)) == Some(t@),
            None => text_of(field(members@, key@)) is None,
        },
{
    match get_field(members, key) {
        Some(JsonValue::Text(t)) => Some(t.clone()),
        _ => None,
    }
}

fn unsigned_field(members: &Vec<JsonMember>, key: &str) -> (number: Option<u64>)
    ensures
        number == unsigned_of(field(members@, key@)),
{
    match get_field(members, key) {
        Some(JsonValue::Number(JsonNumber::Unsigned(n))) => Some(*n),
        _ => None,
    }
}

fn usize_field(members: &Vec<JsonMember>, key: &str) -> (number: Option<usize>)
    ensures
        number == usize_of(field(members@, key@)),
{
    match unsigned_field(members, key) {
        Some(n) => if n <= usize::MAX as u64 {
            Some(n as usize)
        } else {
            None
        },
        None => None,
    }
}

fn u32_field(members: &Vec<JsonMember>, key: &str) -> (number: Option<u32>)
    ensures
        number == u32_of(field(members@, key@)),
{
    match unsigned_field(members, key) {
        Some(n) => if n <= u32::MAX as u64 {
            Some(n as u32)
        } else {
            None
        },
        None => None,
    }
}

fn u8_field(members: &Vec<JsonMember>, key: &str) -> (number: Option<u8>)
    ensures
        number == u8_of(field(members@, key@)),
{
    match unsigned_field(members, key) {
        Some(n) => if n <= u8::MAX as u64 {
            Some(n as u8)
        } else {
            None
        },
        None => None,
    }
}

pub proof fn reveal_step_tags()
    ensures
        "send_text"@ != "send_bytes"@,
        "send_text"@ != "wait"@,
        "send_text"@ != "read"@,
        "send_text"@ != "read_until"@,
        "send_text"@ != "repeat"@,
        "send_bytes"@ != "wait"@,
        "send_bytes"@ != "read"@,
        "send_bytes"@ != "read_until"@,
        "send_bytes"@ != "repeat"@,
        "wait"@ != "read"@,
        "wait"@ != "read_until"@,
        "wait"@ != "repeat"@,
        "read"@ != "read_until"@,
        "read"@ != "repeat"@,
        "read_until"@ != "repeat"@,
{
    reveal_strlit("send_text");
    reveal_strlit("send_bytes");
    reveal_strlit("wait");
    reveal_strlit("read");
    reveal_strlit("read_until");
    reveal_strlit("repeat");
    assert("send_text"@.len() == 9);
    assert("send_bytes"@.len() == 10);
    assert("wait"@.len() == 4);
    assert("read"@.len() == 4);
    assert("read_until"@.len() == 10);
    assert("repeat"@.len() == 6);
    assert("send_bytes"@[0] != "read_until"@[0]);
    assert("wait"@[0] != "read"@[0]);
}

/// Reads one step under the strict schema; `None` when the object is not a step.
pub fn step_from_json(value: &JsonValue) -> (result: Option<WireStep>)
    ensures
        match result {
            Some(step) => step_denotes(*value, step),
            None => forall|step: WireStep| !step_denotes(*value, step),
        },
        result is None ==> !step_shape_ok(*value),
    decreases value,
{
    proof {
        reveal_step_tags();
    }
    let members = match value {
        JsonValue::Object(members) => members,
        _ => return None,
    };
    let tag = match text_field(members, "type") {
        Some(t) => t,
        None => return None,
    };
    let id = match text_field(members, "id") {
        Some(t) => t,
        None => return None,
    };
    if text_equals(tag.as_str(), "send_text") {
        let allowed = ["type", "id", "text"];
        if !keys_are_within(members, &allowed) {
            assert(allowed@.map_values(|name: &str| name@) =~= step_keys("send_text"@));
            return None;
        }
        assert(allowed@.map_values(|name: &str| name@) =~= step_keys("send_text"@));
        match text_field(members, "text") {
            Some(text) => Some(WireStep::SendText { id, text }),
            None => None,
        }
    } else if text_equals(tag.as_str(), "send_bytes") {
        let allowed = ["type", "id", "hex"];
        assert(allowed@.map_values(|name: &str| name@) =~= step_keys("send_bytes"@));
        if !keys_are_within(members, &allowed) {
            return None;
        }
        match text_field(members, "hex") {
            Some(hex) => Some(WireStep::SendBytes { id, hex }),
            None => None,
        }
    } else if text_equals(tag.as_str(), "wait") {
        let allowed = ["type", "id", "duration_ms"];
        assert(allowed@.map_values(|name: &str| name@) =~= step_keys("wait"@));
        if !keys_are_within(members, &allowed) {
            return None;
        }
        match unsigned_field(members, "duration_ms") {
            Some(duration_ms) => Some(WireStep::Wait { id, duration_ms }),
            None => None,
        }
    } else if text_equals(tag.as_str(), "read") {
        let allowed = ["type", "id", "max_bytes"];
        assert(allowed@.map_values(|name: &str| name@) =~= step_keys("read"@));
        if !keys_are_within(members, &allowed) {
            return None;
        }
        match usize_field(members, "max_bytes") {
            Some(max_bytes) => Some(WireStep::Read { id, max_bytes }),
            None => None,
        }
    } else if text_equals(tag.as_str(), "read_until") {
        let allowed = ["type", "id", "delimiter_hex", "max_bytes"];
        assert(allowed@.map_values(|name: &str| name@) =~= step_keys("read_until"@));
        if !keys_are_within(members, &allowed) {
            return None;
        }
        let delimiter_hex = match text_field(members, "delimiter_hex") {
            Some(t) => t,
            None => {
                proof {
                    assert forall|step: WireStep| !step_denotes(*value, step) by {
                        match step {
                            WireStep::ReadUntil { .. } => {},
                            _ => {
                                assert(tag@ == "read_until"@);
                            },
                        }
                    }
                }
                return None;
            },
        };
        match usize_field(members, "max_bytes") {
            Some(max_bytes) => Some(WireStep::ReadUntil { id, delimiter_hex, max_bytes }),
            None => None,
        }
    } else if text_equals(tag.as_str(), "repeat") {
        let allowed = ["type", "id", "count", "steps"];
        assert(allowed@.map_values(|name: &str| name@) =~= step_keys("repeat"@));
        if !keys_are_within(members, &allowed) {
            return None;
        }
        let count = match usize_field(members, "count") {
            Some(n) => n,
            None => return None,
        };
        let k = match crate::json::find_field(members, "steps") {
            Some(k) => k,
            None => return None,
        };
        let items = match &members[k].value {
            JsonValue::Array(items) => items,
            _ => {
                proof {
                    assert forall|step: WireStep| !step_denotes(*value, step) by {
                        if step_denotes(*value, step) {
                            if let WireStep::Repeat { .. } = step {
                                lemma_first_key_same(members@, "steps"@);
                            }
                        }
                    }
                }
                return None;
            },
        };
        let mut steps: Vec<WireStep> = Vec::new();
        let mut i: usize = 0;
        while i < items.len()
            invariant
                i <= items@.len(),
                steps@.len() == i,
                forall|j: int| 0 <= j < i ==> #[trigger] step_denotes(items@[j], steps@[j]),
                members@[k as int].value == JsonValue::Array(*items),
                *value == JsonValue::Object(*members),
                k < members@.len(),
                is_first_key(members@, "steps"@, k as int),
                text_of(field(members@, "type"@)) == Some("repeat"@),
                text_of(field(members@, "id"@)) == Some(id@),
                keys_within(members@, step_keys("repeat"@)),
                usize_of(field(members@, "count"@)) == Some(count),
            decreases items@.len() - i,
        {
            proof {
                assert(decreases_to!(*value => (*value)->Object_0));
                assert(decreases_to!((*value)->Object_0 => members@));
                assert(decreases_to!(members@ => members@[k as int]));
                assert(decreases_to!(members@[k as int] => members@[k as int].value));
                assert(decreases_to!(members@[k as int].value => members@[k as int].value->Array_0));
                assert(decreases_to!(members@[k as int].value->Array_0 => items@));
                assert(decreases_to!(items@ => items@[i as int]));
            }
            match step_from_json(&items[i]) {
                Some(step) => {
                    steps.push(step);
                    i = i + 1;
                },
                None => {
                    proof {
                        reveal_step_tags();
                        assert forall|step: WireStep| !step_denotes(*value, step) by {
                            if step_denotes(*value, step) {
                                if let WireStep::Repeat { .. } = step {
                                    lemma_repeat_children(*value, *members, k as int, *items, step);
                                    assert(step_denotes(items@[i as int], step->Repeat_steps@[i as int]));
                                }
                            }
                        }
                        lemma_steps_shape_ok(items@);
                        assert(!step_shape_ok(items@[i as int]));
                        crate::json::lemma_first_key_unique(members@, "steps"@, k as int);
                        assert(!steps_shape_ok(items@));
                    }
                    return None;
                },
            }
        }
        proof {
            lemma_repeat_built(*value, *members, k as int, *items, id, count, steps);
        }
        let result = WireStep::Repeat { id, count, steps };
        Some(result)
    } else {
        None
    }
}


/// The member names the `serial` object may have.
pub open spec fn serial_keys() -> Seq<Seq<char>> {
    seq!["baud_rate"@, "data_bits"@, "parity"@, "stop_bits"@, "flow_control"@, "timeout_ms"@]
}

/// The JSON object `value` is exactly the line settings `serial`.
pub open spec fn serial_denotes(value: JsonValue, serial: WireSerial) -> bool {
    match value {
        JsonValue::Object(members) => {
            let m = members@;
            &&& keys_within(m, serial_keys())
            &&& u32_of(field(m, "baud_rate"@)) == Some(serial.baud_rate)
            &&& u8_of(field(m, "data_bits"@)) == Some(serial.data_bits)
            &&& text_of(field(m, "parity"@)) == Some(serial.parity@)
            &&& u8_of(field(m, "stop_bits"@)) == Some(serial.stop_bits)
            &&& text_of(field(m, "flow_control"@)) == Some(serial.flow_control@)
            &&& unsigned_of(field(m, "timeout_ms"@)) == Some(serial.timeout_ms)
        },
        _ => false,
    }
}

/// Reads the `serial` object under the strict schema.
pub fn serial_from_json(value: &JsonValue) -> (result: Option<WireSerial>)
    ensures
        match result {
            Some(serial) => serial_denotes(*value, serial),
            None => forall|serial: WireSerial| !serial_denotes(*value, serial),
        },
        result is None ==> !serial_shape_ok(*value),
{
    let members = match value {
        JsonValue::Object(members) => members,
        _ => return None,
    };
    let allowed = ["baud_rate", "data_bits", "parity", "stop_bits", "flow_control", "timeout_ms"];
    assert(allowed@.map_values(|name: &str| name@) =~= serial_keys());
    if !keys_are_within(members, &allowed) {
        return None;
    }
    let baud_rate = match u32_field(members, "baud_rate") {
        Some(n) => n,
        None => return None,
    };
    let data_bits = match u8_field(members, "data_bits") {
        Some(n) => n,
        None => return None,
    };
    let parity = match text_field(members, "parity") {
        Some(t) => t,
        None => return None,
    };
    let stop_bits = match u8_field(members, "stop_bits") {
        Some(n) => n,
        None => return None,
    };
    let flow_control = match text_field(members, "flow_control") {
        Some(t) => t,
        None => return None,
    };
    let timeout_ms = match unsigned_field(members, "timeout_ms") {
        Some(n) => n,
        None => return None,
    };
    Some(WireSerial { baud_rate, data_bits, parity, stop_bits, flow_control, timeout_ms })
}

/// The member names of a Sequence document.
pub open spec fn sequence_keys() -> Seq<Seq<char>> {
    seq!["sequence_version"@, "serial"@, "steps"@]
}

/// The JSON document `value` is exactly the wire record `wire`.
pub open spec fn sequence_denotes(value: JsonValue, wire: WireSequence) -> bool {
    match value {
        JsonValue::Object(members) => {
            let m = members@;
            &&& keys_within(m, sequence_keys())
            &&& unsigned_of(field(m, "sequence_version"@)) == Some(wire.sequence_version)
            &&& field(m, "serial"@) matches Some(serial) && serial_denotes(serial, wire.serial)
            &&& field(m, "steps"@) matches Some(JsonValue::Array(items)) && steps_denote(
                items@,
                wire.steps@,
            )
        },
        _ => false,
    }
}

/// Reads a whole document under the strict schema.
pub fn sequence_from_json(value: &JsonValue) -> (result: Option<WireSequence>)
    ensures
        match result {
            Some(wire) => sequence_denotes(*value, wire),
            None => forall|wire: WireSequence| !sequence_denotes(*value, wire),
        },
        result is None ==> !sequence_shape_ok(*value),
{
    let members = match value {
        JsonValue::Object(members) => members,
        _ => return None,
    };
    let allowed = ["sequence_version", "serial", "steps"];
    assert(allowed@.map_values(|name: &str| name@) =~= sequence_keys());
    if !keys_are_within(members, &allowed) {
        return None;
    }
    let sequence_version = match unsigned_field(members, "sequence_version") {
        Some(n) => n,
        None => return None,
    };
    let serial = match get_field(members, "serial") {
        Some(v) => match serial_from_json(v) {
            Some(serial) => serial,
            None => return None,
        },
        None => return None,
    };
    let items = match get_field(members, "steps") {
        Some(JsonValue::Array(items)) => items,
        _ => return None,
    };
    let mut steps: Vec<WireStep> = Vec::new();
    let mut i: usize = 0;
    while i < items.len()
        invariant
            i <= items@.len(),
            steps@.len() == i,
            forall|j: int| 0 <= j < i ==> #[trigger] step_denotes(items@[j], steps@[j]),
            field(members@, "steps"@) == Some(JsonValue::Array(*items)),
            *value == JsonValue::Object(*members),
        decreases items@.len() - i,
    {
        match step_from_json(&items[i]) {
            Some(step) => {
                steps.push(step);
                i = i + 1;
            },
            None => {
                proof {
                    assert forall|wire: WireSequence| !sequence_denotes(*value, wire) by {
                        if sequence_denotes(*value, wire) {
                            lemma_steps_denote(items@, wire.steps@);
                            assert(step_denotes(items@[i as int], wire.steps@[i as int]));
                        }
                    }
                    lemma_steps_shape_ok(items@);
                    assert(!step_shape_ok(items@[i as int]));
                    assert(!steps_shape_ok(items@));
                }
                return None;
            },
        }
    }
    proof {
        lemma_steps_denote(items@, steps@);
    }
    Some(WireSequence { sequence_version, serial, steps })
}

} // verus!
