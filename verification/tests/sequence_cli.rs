use std::time::Duration;

use serial_tool::cli::CliError;
use serial_tool::json::{JsonNumber, JsonValue};
use serial_tool::report::{
    error_json, error_report, error_reportable, send_report, timeout_reportable,
};
use serial_tool::sequence::{Sequence, SequenceError, SequenceSerialConfig};
use serial_tool::sequence_cli::{
    count_steps, is_reportable, render_rx, run_output, run_resource, run_steps, validate_output,
    RunMode, RxDisplay,
};
use serial_tool::{
    DataBits, FlowControl, Parity, Pause, RunReport, SerialSession, SerialSettings,
    SimulationTransport, Step, StepId, StepKind, StepOutcome, StepResult, StopBits,
};

struct NoWait;

impl Pause for NoWait {
    fn pause(&mut self, _: Duration) {}
}

fn step(id: &str, kind: StepKind) -> Step {
    Step {
        id: StepId::new(id).unwrap(),
        kind,
    }
}

fn get<'a>(value: &'a JsonValue, key: &str) -> Option<&'a JsonValue> {
    match value {
        JsonValue::Object(members) => members.iter().find(|m| m.key == key).map(|m| &m.value),
        _ => None,
    }
}

fn status_steps() -> Vec<Step> {
    vec![
        step("send-status", StepKind::SendText("OK\r\n".into())),
        step(
            "read-status",
            StepKind::ReadUntil {
                delimiter: vec![0x0d, 0x0a],
                max_bytes: 64,
            },
        ),
    ]
}

#[test]
fn simulation_rx_display_changes_only_human_output() {
    let mut session = SerialSession::new(SimulationTransport::loopback());
    let report = run_steps(&mut session, &status_steps(), &mut NoWait).unwrap();
    let (hex_value, hex_text) = run_output(&report, 1, RunMode::Simulate, "loopback-v1", RxDisplay::Hex, "t");
    assert!(hex_text.contains("Sequence run complete: 2 step results"));
    assert!(hex_text.contains("RX read-status: 4F 4B 0D 0A"));
    let (text_value, text_text) = run_output(&report, 1, RunMode::Simulate, "loopback-v1", RxDisplay::Text, "t");
    assert!(text_text.contains("RX read-status: OK\\r\\n"));
    let (_, both_text) = run_output(&report, 1, RunMode::Simulate, "loopback-v1", RxDisplay::Both, "t");
    assert!(both_text.contains("RX read-status\nHEX: 4F 4B 0D 0A\nTEXT: OK\\r\\n"));
    assert_eq!(hex_value, text_value);
    match get(&hex_value, "step_results") {
        Some(JsonValue::Array(results)) => {
            assert_eq!(get(&results[1], "rx_hex"), Some(&JsonValue::Text("4f4b0d0a".into())));
            assert_eq!(
                get(&results[1], "rx_bytes"),
                Some(&JsonValue::Number(JsonNumber::Unsigned(4)))
            );
            assert_eq!(get(&results[1], "type"), Some(&JsonValue::Text("read_until".into())));
        }
        other => panic!("{other:?}"),
    }
}

#[test]
fn runtime_mode_admission_is_explicit() {
    let refused = |mode, port, profile| match run_resource(mode, port, profile) {
        Err(error) => error.exit_code(),
        Ok(_) => 0,
    };
    assert_eq!(refused(RunMode::Live, None, None), 2);
    assert_eq!(refused(RunMode::Live, Some("COM4"), Some("loopback-v1")), 2);
    assert_eq!(refused(RunMode::Simulate, None, None), 2);
    assert_eq!(refused(RunMode::Simulate, Some("COM4"), Some("loopback-v1")), 2);
    assert_eq!(refused(RunMode::Simulate, None, Some("unknown")), 2);
    assert_eq!(run_resource(RunMode::Live, Some("COM4"), None).unwrap(), "COM4");
    assert_eq!(
        run_resource(RunMode::Simulate, None, Some("loopback-v1")).unwrap(),
        "loopback-v1"
    );
    assert!(matches!(
        run_resource(RunMode::Live, Some("  "), None),
        Err(CliError::Input("live mode requires --port and forbids --simulation-profile-id"))
    ));
}

#[test]
fn simulation_failure_keeps_completed_work_and_partial_rx() {
    let steps = vec![
        step("send-byte", StepKind::SendBytes(vec![0xaa])),
        step(
            "read-reply",
            StepKind::ReadUntil {
                delimiter: vec![0x0d, 0x0a],
                max_bytes: 8,
            },
        ),
    ];
    let mut session = SerialSession::new(SimulationTransport::loopback());
    let error = run_steps(&mut session, &steps, &mut NoWait).unwrap_err();
    assert_eq!(error.exit_code(), 3);
    let value = error_json("sequence-run", &error, "t");
    assert_eq!(get(&value, "event"), Some(&JsonValue::Text("error".into())));
    assert_eq!(get(&value, "command"), Some(&JsonValue::Text("sequence-run".into())));
    assert_eq!(get(&value, "step_id"), Some(&JsonValue::Text("read-reply".into())));
    assert_eq!(get(&value, "partial_hex"), Some(&JsonValue::Text("aa".into())));
    assert_eq!(
        get(&value, "partial_bytes"),
        Some(&JsonValue::Number(JsonNumber::Unsigned(1)))
    );
    match (get(&value, "step_results"), get(&value, "transcript")) {
        (Some(JsonValue::Array(results)), Some(JsonValue::Array(transcript))) => {
            assert_eq!(get(&results[0], "step_id"), Some(&JsonValue::Text("send-byte".into())));
            assert_eq!(get(&transcript[0], "hex"), Some(&JsonValue::Text("aa".into())));
        }
        other => panic!("{other:?}"),
    }
}

#[test]
fn repeated_rx_entries_keep_transcript_order_in_human_output() {
    let steps = vec![
        step("send-bytes", StepKind::SendBytes(vec![0x41, 0x42])),
        step(
            "repeat",
            StepKind::Repeat {
                count: 2,
                steps: vec![step("read-byte", StepKind::Read { max_bytes: 1 })],
            },
        ),
    ];
    let mut session = SerialSession::new(SimulationTransport::loopback());
    let report = run_steps(&mut session, &steps, &mut NoWait).unwrap();
    let (_, stdout) = run_output(&report, 1, RunMode::Simulate, "loopback-v1", RxDisplay::Hex, "t");
    assert_eq!(stdout.matches("RX read-byte:").count(), 2);
    assert!(stdout.find("RX read-byte: 41").unwrap() < stdout.find("RX read-byte: 42").unwrap());
}

fn sample() -> Sequence {
    Sequence {
        sequence_version: 1,
        serial: SequenceSerialConfig {
            baud_rate: 115200,
            data_bits: DataBits::Eight,
            parity: Parity::NoParity,
            stop_bits: StopBits::One,
            flow_control: FlowControl::NoFlowControl,
            timeout: Duration::from_millis(1000),
        },
        steps: vec![
            step("send-frame", StepKind::SendBytes(vec![0, 0x55])),
            step(
                "repeat",
                StepKind::Repeat {
                    count: 2,
                    steps: vec![step("nested", StepKind::SendBytes(vec![0xff]))],
                },
            ),
        ],
    }
}

#[test]
fn validation_output_counts_defined_steps() {
    let sequence = sample();
    assert_eq!(count_steps(&sequence.steps), 3);
    let (value, text) = validate_output(&sequence, "t");
    assert_eq!(text, "Sequence valid: version 1, 3 defined steps");
    assert_eq!(
        get(&value, "defined_steps"),
        Some(&JsonValue::Number(JsonNumber::Unsigned(3)))
    );
    assert_eq!(render_rx(b"OK\r\n", RxDisplay::Both, "  "), "  HEX: 4F 4B 0D 0A\n  TEXT: OK\\r\\n");
    let error = CliError::Sequence(SequenceError::EmptySteps);
    assert_eq!(error.exit_code(), 2);
    assert_eq!(error.message(), "sequence steps must not be empty");
}

#[test]
fn reports_check_that_durations_fit_in_milliseconds() {
    let mut settings = SerialSettings {
        port: "COM4".into(),
        baud_rate: 9600,
        data_bits: DataBits::Eight,
        parity: Parity::NoParity,
        stop_bits: StopBits::One,
        flow_control: FlowControl::NoFlowControl,
        timeout: Duration::from_millis(u64::MAX),
    };
    assert!(timeout_reportable(&settings));
    assert!(send_report(true, &settings, b"X", "2024-01-01T00:00:00.000Z").is_some());
    settings.timeout = Duration::MAX;
    assert!(!timeout_reportable(&settings));
    assert!(send_report(true, &settings, b"X", "2024-01-01T00:00:00.000Z").is_none());

    let mut report = RunReport::default();
    assert!(is_reportable(&report));
    report.step_results.push(StepResult {
        step_id: StepId::new("pause").unwrap(),
        outcome: StepOutcome::Wait {
            requested_duration: Duration::from_millis(250),
        },
    });
    assert!(is_reportable(&report));
    assert!(error_reportable(&CliError::Input("bad")));
    report.step_results.push(StepResult {
        step_id: StepId::new("forever").unwrap(),
        outcome: StepOutcome::Wait {
            requested_duration: Duration::MAX,
        },
    });
    assert!(!is_reportable(&report));
    let failure = serial_tool::ExecutionFailure {
        step_id: StepId::new("forever").unwrap(),
        error: serial_tool::Error::Timeout { partial: Vec::new() },
        report,
    };
    assert!(error_report("sequence-run", &CliError::SequenceExecution(failure), "t").is_none());
}

#[test]
fn received_text_is_lossy_utf8_with_escapes() {
    assert_eq!(
        render_rx(&[0x41, 0xff, 0x0d, 0x0a, b'"'], RxDisplay::Text, ""),
        "A\u{fffd}\\r\\n\\\""
    );
    assert_eq!(render_rx("é\t".as_bytes(), RxDisplay::Text, ""), "é\\t");
    assert_eq!(
        render_rx(&[0x00, 0x7f], RxDisplay::Both, "  "),
        "  HEX: 00 7F\n  TEXT: \\0\\u{7f}"
    );
}
