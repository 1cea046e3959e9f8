use std::time::Duration;

use serial_tool::json::{JsonMember, JsonNumber, JsonValue};
use serial_tool::sequence::{Sequence, SequenceError, SequenceSerialConfig};
use serial_tool::{DataBits, FlowControl, Parity, Step, StepId, StepKind, StopBits, ValidationReason};

fn step(id: &str, kind: StepKind) -> Step {
    Step {
        id: StepId::new(id).unwrap(),
        kind,
    }
}

fn sample() -> Sequence {
    Sequence {
        sequence_version: 1,
        serial: SequenceSerialConfig {
            baud_rate: 115200,
            data_bits: DataBits::Eight,
            parity: Parity::NoParity,
            stop_bits: StopBits::One,
            flow_control: FlowControl::NoFlowControl,
            timeout: Duration::from_millis(1000),
        },
        steps: vec![
            step("send-text", StepKind::SendText("é".into())),
            step("send-bytes", StepKind::SendBytes(vec![0, 0x55, 0xaa, 0xff])),
            step("wait", StepKind::Wait(Duration::from_millis(100))),
            step("read", StepKind::Read { max_bytes: 2 }),
            step(
                "read-until",
                StepKind::ReadUntil {
                    delimiter: vec![0x0d, 0x0a],
                    max_bytes: 64,
                },
            ),
            step(
                "repeat",
                StepKind::Repeat {
                    count: 2,
                    steps: vec![step("nested", StepKind::SendBytes(vec![0xff]))],
                },
            ),
        ],
    }
}

fn to_serde(value: &JsonValue) -> serde_json::Value {
    match value {
        JsonValue::Null => serde_json::Value::Null,
        JsonValue::Bool(b) => serde_json::Value::Bool(*b),
        JsonValue::Number(JsonNumber::Unsigned(n)) => serde_json::Value::from(*n),
        JsonValue::Number(JsonNumber::Negative(n)) => serde_json::Value::from(*n),
        JsonValue::Number(JsonNumber::Fractional) => serde_json::Value::Null,
        JsonValue::Text(t) => serde_json::Value::String(t.clone()),
        JsonValue::Array(items) => serde_json::Value::Array(items.iter().map(to_serde).collect()),
        JsonValue::Object(members) => {
            let mut map = serde_json::Map::new();
            for member in members {
                map.insert(member.key.clone(), to_serde(&member.value));
            }
            serde_json::Value::Object(map)
        }
    }
}

fn from_serde(value: &serde_json::Value) -> JsonValue {
    match value {
        serde_json::Value::Null => JsonValue::Null,
        serde_json::Value::Bool(b) => JsonValue::Bool(*b),
        serde_json::Value::Number(n) => JsonValue::Number(match (n.as_u64(), n.as_i64()) {
            (Some(u), _) => JsonNumber::Unsigned(u),
            (None, Some(i)) => JsonNumber::Negative(i),
            _ => JsonNumber::Fractional,
        }),
        serde_json::Value::String(s) => JsonValue::Text(s.clone()),
        serde_json::Value::Array(items) => JsonValue::Array(items.iter().map(from_serde).collect()),
        serde_json::Value::Object(map) => JsonValue::Object(
            map.iter()
                .map(|(key, value)| JsonMember {
                    key: key.clone(),
                    value: from_serde(value),
                })
                .collect(),
        ),
    }
}

fn to_json_pretty(sequence: &Sequence) -> Result<String, SequenceError> {
    let value = sequence.to_json_value()?;
    let mut text = serde_json::to_string_pretty(&to_serde(&value)).unwrap();
    text.push('\n');
    Ok(text)
}

fn from_json_str(text: &str) -> Result<Sequence, SequenceError> {
    let value: serde_json::Value =
        serde_json::from_str(text).map_err(|error| SequenceError::Json(error.to_string()))?;
    Sequence::from_json_value(&from_serde(&value))
}

#[test]
fn all_step_types_round_trip_with_canonical_hex_and_serial_settings() {
    let sequence = sample();
    let json = to_json_pretty(&sequence).unwrap();
    assert!(json.contains("\"hex\": \"0055aaff\""));
    assert!(json.ends_with('\n'));
    assert!(!json.contains("\"port\""));
    assert_eq!(from_json_str(&json).unwrap(), sequence);
    let spaced = json.replace("0055aaff", "00 55 AA FF");
    assert_eq!(
        to_json_pretty(&from_json_str(&spaced).unwrap()).unwrap(),
        json
    );
    assert_eq!(
        sequence.serial.serial_settings_for_port("COM4").port,
        "COM4"
    );
}

#[test]
fn strict_schema_rejects_unrecognized_or_invalid_input() {
    let base = to_json_pretty(&sample()).unwrap();
    for bad in [
        base.replace("\"sequence_version\": 1", "\"sequence_version\": 2"),
        base.replace("\"sequence_version\": 1", "\"sequence_version\": 1.0"),
        base.replace(
            "\"sequence_version\": 1,",
            "\"sequence_version\": 1, \"future_magic\": true,",
        ),
        base.replace(
            "\"baud_rate\": 115200,",
            "\"baud_rate\": 115200, \"port\": \"COM4\",",
        ),
        base.replace("\"text\": \"é\"", "\"text\": \"é\", \"unexpected\": 1"),
        base.replace("\"type\": \"send_text\"", "\"type\": \"mystery\""),
        base.replace("0055aaff", "0055xxff"),
        base.replace("\"parity\": \"none\"", "\"parity\": \"mark\""),
    ] {
        assert!(from_json_str(&bad).is_err(), "accepted: {bad}");
    }
    assert!(matches!(
        from_json_str(&base.replace("\"sequence_version\": 1", "\"sequence_version\": 2")),
        Err(SequenceError::UnsupportedVersion(2))
    ));
}

#[test]
fn sequence_uses_shared_step_validation() {
    let mut sequence = sample();
    for (steps, reason) in [
        (
            vec![step(
                "outer",
                StepKind::Repeat {
                    count: 1,
                    steps: vec![step("outer", StepKind::Wait(Duration::ZERO))],
                },
            )],
            ValidationReason::DuplicateId,
        ),
        (
            vec![step("read", StepKind::Read { max_bytes: 0 })],
            ValidationReason::InvalidReadLimit,
        ),
        (
            vec![step(
                "repeat",
                StepKind::Repeat {
                    count: 0,
                    steps: vec![],
                },
            )],
            ValidationReason::ZeroRepeatCount,
        ),
    ] {
        sequence.steps = steps;
        assert!(
            matches!(sequence.validate(), Err(SequenceError::StepValidation(error)) if error.reason == reason)
        );
        assert!(sequence.to_json_value().is_err());
    }
    sequence.steps.clear();
    assert!(matches!(sequence.validate(), Err(SequenceError::EmptySteps)));
    sequence = sample();
    sequence.steps[2] = step("wait", StepKind::Wait(Duration::from_nanos(1)));
    assert!(matches!(
        sequence.to_json_value(),
        Err(SequenceError::InvalidDuration { .. })
    ));
}
