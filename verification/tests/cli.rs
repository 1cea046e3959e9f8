use std::io;
use std::time::Duration;

use serial_tool::cli::{
    max_bytes, parse_bytes, query, receive, send, CliError, CliFlowControl, CliParity,
    DelimiterArgs, Format, OutputArgs, QueryArgs, SendArgs, SerialArgs, TxArgs,
};
use serial_tool::hex::encode_hex;
use serial_tool::json::{JsonNumber, JsonValue};
use serial_tool::report::{error_json, manifest_output, query_output, send_output};
use serial_tool::{SerialSession, SimulationTransport, Transport};

fn get<'a>(value: &'a JsonValue, key: &str) -> Option<&'a JsonValue> {
    match value {
        JsonValue::Object(members) => members.iter().find(|m| m.key == key).map(|m| &m.value),
        _ => None,
    }
}

fn text(value: &JsonValue, key: &str) -> String {
    match get(value, key) {
        Some(JsonValue::Text(t)) => t.clone(),
        other => panic!("{key} is not text: {other:?}"),
    }
}

fn number(value: &JsonValue, key: &str) -> u64 {
    match get(value, key) {
        Some(JsonValue::Number(JsonNumber::Unsigned(n))) => *n,
        other => panic!("{key} is not a number: {other:?}"),
    }
}

fn serial(port: &str, baud: u32) -> SerialArgs {
    SerialArgs {
        port: port.into(),
        baud,
        data_bits: 8,
        parity: CliParity::NoParity,
        stop_bits: 1,
        flow_control: CliFlowControl::NoFlowControl,
        timeout_ms: 1000,
    }
}

fn json_output() -> OutputArgs {
    OutputArgs {
        format: Format::Text,
        json: true,
    }
}

#[test]
fn parses_exact_tx_and_delimiter_bytes() {
    assert_eq!(parse_bytes(Some("é"), None).unwrap(), "é".as_bytes());
    assert_eq!(
        parse_bytes(None, Some("00 55\tAA\nFF")).unwrap(),
        [0, 0x55, 0xaa, 0xff]
    );
    assert_eq!(
        parse_bytes(None, Some("0055AAFF")).unwrap(),
        [0, 0x55, 0xaa, 0xff]
    );
    assert_eq!(parse_bytes(Some("OK"), None).unwrap(), b"OK");
    assert_eq!(parse_bytes(None, Some("0D 0A")).unwrap(), b"\r\n");
    for bad in ["0", "0g", " "] {
        assert!(parse_bytes(None, Some(bad)).is_err());
    }
    assert!(parse_bytes(Some(""), None).is_err());
    assert!(parse_bytes(None, Some("")).is_err());
}

#[test]
fn manifest_is_static_and_advertises_worker() {
    let (value, line) = manifest_output("0.1.0");
    assert_eq!(text(&value, "event"), "tool_manifest");
    assert_eq!(number(&value, "schema_version"), 2);
    assert_eq!(text(&value, "tool_id"), "serial");
    let protocol = get(&value, "worker_protocol").unwrap();
    match get(protocol, "schema_versions") {
        Some(JsonValue::Array(versions)) => {
            assert_eq!(versions, &vec![JsonValue::Number(JsonNumber::Unsigned(2))])
        }
        other => panic!("schema_versions: {other:?}"),
    }
    assert_eq!(line, "serial 0.1.0\nWorker protocol: schema 2");
}

#[test]
fn dry_runs_validate_without_opening_a_port() {
    let send_args = SendArgs {
        serial: serial("COM_DOES_NOT_EXIST", 115200),
        tx: TxArgs {
            text: None,
            hex: Some("00 FF".into()),
        },
        output: json_output(),
        dry_run: true,
    };
    let (settings, tx) = send_args.plan().unwrap();
    let (value, _) = send_output(true, &settings, &tx, "2024-01-01T00:00:00.000Z");
    assert_eq!(text(&value, "event"), "dry_run");
    assert_eq!(number(&value, "schema_version"), 2);
    assert_eq!(get(&value, "performs_serial_io"), Some(&JsonValue::Bool(false)));
    assert_eq!(text(&value, "tx_hex"), "00ff");
    assert!(get(&value, "run_id").is_none());

    let query_args = QueryArgs {
        serial: serial("COM_DOES_NOT_EXIST", 115200),
        tx: TxArgs {
            text: Some("X".into()),
            hex: None,
        },
        delimiter: DelimiterArgs {
            until_text: None,
            until_hex: Some("0D 0A".into()),
        },
        max_bytes: 16,
        output: json_output(),
        dry_run: true,
    };
    let plan = query_args.plan().unwrap();
    let (value, _) = query_output(
        true,
        &plan.settings,
        &plan.tx,
        &plan.delimiter,
        plan.limit,
        &[],
        "2024-01-01T00:00:00.000Z",
    );
    assert_eq!(text(&value, "event"), "dry_run");
    assert_eq!(text(&value, "delimiter_hex"), "0d0a");
    assert!(get(&value, "run_id").is_none());

    let zero_baud = SendArgs {
        serial: serial("COM1", 0),
        tx: TxArgs {
            text: Some("X".into()),
            hex: None,
        },
        output: json_output(),
        dry_run: true,
    };
    assert_eq!(zero_baud.plan().unwrap_err().exit_code(), 2);
    let zero_limit = QueryArgs {
        serial: serial("COM1", 9600),
        tx: TxArgs {
            text: Some("X".into()),
            hex: None,
        },
        delimiter: DelimiterArgs {
            until_text: Some("Y".into()),
            until_hex: None,
        },
        max_bytes: 0,
        output: json_output(),
        dry_run: true,
    };
    assert_eq!(zero_limit.plan().unwrap_err().exit_code(), 2);
}

#[test]
fn core_session_operations_preserve_raw_bytes() {
    let mut sent = SerialSession::new(SimulationTransport::default());
    send(&mut sent, &[0, 0xff]).unwrap();
    assert_eq!(sent.transport().captured_tx(), &[0, 0xff]);

    let mut queried =
        SerialSession::new(SimulationTransport::with_rx_chunks(vec![vec![0xff, 0x0d, 0x0a]]));
    let rx = query(&mut queried, &[0, 0x55], b"\r\n", 8).unwrap();
    assert_eq!(queried.transport().captured_tx(), &[0, 0x55]);
    assert_eq!(rx, [0xff, 0x0d, 0x0a]);
    assert_eq!(encode_hex(&rx), "ff0d0a");

    let mut receiving = SerialSession::new(SimulationTransport::with_rx_chunks(vec![vec![0, 0xff]]));
    assert_eq!(receive(&mut receiving, 4).unwrap(), [0, 0xff]);
}

struct FailedWrite;

impl Transport for FailedWrite {
    fn read(&mut self, _: &mut [u8]) -> io::Result<usize> {
        unreachable!()
    }
    fn write_all(&mut self, _: &[u8]) -> io::Result<()> {
        Err(io::Error::other("injected failure"))
    }
    fn flush(&mut self) -> io::Result<()> {
        unreachable!()
    }
}

#[test]
fn machine_errors_classify_failures_and_preserve_partial_rx() {
    let invalid = SendArgs {
        serial: serial("COM1", 9600),
        tx: TxArgs {
            text: None,
            hex: Some("0g".into()),
        },
        output: json_output(),
        dry_run: false,
    };
    let validation = invalid.plan().unwrap_err();
    let value = error_json("send", &validation, "2024-01-01T00:00:00.000Z");
    assert_eq!(number(&value, "exit_code"), 2);
    assert_eq!(text(&value, "event"), "error");
    assert_eq!(number(&value, "schema_version"), 2);

    let mut failed = SerialSession::new(FailedWrite);
    let runtime = CliError::Runtime(send(&mut failed, b"X").unwrap_err());
    assert_eq!(
        number(&error_json("send", &runtime, "2024-01-01T00:00:00.000Z"), "exit_code"),
        3
    );

    let mut partial = SerialSession::new(SimulationTransport::with_rx_chunks(vec![vec![0, 0xff]]));
    let timeout = CliError::Runtime(query(&mut partial, b"X", b"\r\n", 8).unwrap_err());
    let value = error_json("query", &timeout, "2024-01-01T00:00:00.000Z");
    assert_eq!(number(&value, "exit_code"), 3);
    assert_eq!(text(&value, "partial_hex"), "00ff");
    assert_eq!(number(&value, "partial_bytes"), 2);
}

#[test]
fn read_limits_outside_the_range_are_input_errors() {
    assert_eq!(max_bytes(1).unwrap(), 1);
    assert_eq!(max_bytes(1048576).unwrap(), 1048576);
    for bad in [0, 1048577] {
        match max_bytes(bad) {
            Err(CliError::Input(message)) => {
                assert_eq!(message, "max-bytes must be between 1 and 1048576")
            }
            other => panic!("{other:?}"),
        }
    }
}

#[test]
fn byte_input_errors_name_the_problem() {
    let message = |result: Result<Vec<u8>, CliError>| match result {
        Err(CliError::Input(message)) => message,
        other => panic!("{other:?}"),
    };
    assert_eq!(
        message(parse_bytes(None, Some("0"))),
        "hex input must contain an even number of digits"
    );
    assert_eq!(
        message(parse_bytes(None, Some("0g"))),
        "hex input contains a non-hex character"
    );
    assert_eq!(
        message(parse_bytes(Some("a"), Some("00"))),
        "exactly one byte input is required"
    );
    assert_eq!(message(parse_bytes(None, None)), "exactly one byte input is required");
    assert_eq!(message(parse_bytes(Some(""), None)), "byte input must not be empty");
}

#[test]
fn human_lines_spell_out_bytes_and_ports() {
    let settings = serial("COM7", 9600).settings().unwrap();
    assert_eq!(settings.timeout, Duration::from_millis(1000));
    let (_, line) = send_output(false, &settings, &[0x0d, 0x0a], "t");
    assert_eq!(line, "Send: 2 bytes sent to COM7 (0D 0A)");
    let (_, line) = send_output(true, &settings, &[0xab], "t");
    assert_eq!(line, "Dry run: would send 1 bytes to COM7 (AB)");
    let (_, line) = query_output(false, &settings, &[0x41], &[0x0a], 8, &[0x42, 0x0a], "t");
    assert_eq!(line, "Query COM7: TX 41 / RX 42 0A");
    let (_, line) = query_output(true, &settings, &[0x41], &[0x0a], 8, &[], "t");
    assert_eq!(line, "Dry run: query COM7 with TX 41 until 0A (max 8 bytes)");
}

fn query_options(tx: TxArgs, delimiter: DelimiterArgs) -> QueryArgs {
    QueryArgs {
        serial: serial("COM1", 9600),
        tx,
        delimiter,
        max_bytes: 1024,
        output: OutputArgs {
            format: Format::Text,
            json: false,
        },
        dry_run: false,
    }
}

#[test]
fn clap_requires_exactly_one_input_of_each_kind() {
    let both_tx = query_options(
        TxArgs {
            text: Some("X".into()),
            hex: Some("58".into()),
        },
        DelimiterArgs {
            until_text: Some("Y".into()),
            until_hex: None,
        },
    );
    assert!(both_tx.plan().is_err());
    let both_delimiters = query_options(
        TxArgs {
            text: Some("X".into()),
            hex: None,
        },
        DelimiterArgs {
            until_text: Some("Y".into()),
            until_hex: Some("59".into()),
        },
    );
    assert!(both_delimiters.plan().is_err());
    let one_of_each = query_options(
        TxArgs {
            text: Some("X".into()),
            hex: None,
        },
        DelimiterArgs {
            until_text: Some("Y".into()),
            until_hex: None,
        },
    );
    let plan = one_of_each.plan().unwrap();
    assert_eq!(plan.tx, b"X");
    assert_eq!(plan.delimiter, b"Y");
    assert_eq!(plan.limit, 1024);
}

#[test]
fn plans_report_the_first_problem_in_order() {
    let blank_port = SendArgs {
        serial: serial("  ", 0),
        tx: TxArgs {
            text: None,
            hex: Some("0g".into()),
        },
        output: json_output(),
        dry_run: true,
    };
    assert_eq!(
        blank_port.plan().unwrap_err().message(),
        "invalid configuration: port name must not be empty"
    );
    let zero_baud = SendArgs {
        serial: serial("COM1", 0),
        tx: TxArgs {
            text: None,
            hex: Some("0g".into()),
        },
        output: json_output(),
        dry_run: true,
    };
    assert_eq!(
        zero_baud.plan().unwrap_err().message(),
        "invalid configuration: baud rate must be nonzero"
    );
    let short_limit = query_options(
        TxArgs {
            text: Some("X".into()),
            hex: None,
        },
        DelimiterArgs {
            until_text: None,
            until_hex: Some("0D 0A".into()),
        },
    );
    let short_limit = QueryArgs {
        max_bytes: 1,
        ..short_limit
    };
    match short_limit.plan() {
        Err(CliError::Input(message)) => {
            assert_eq!(message, "max-bytes must be at least the delimiter length")
        }
        other => panic!("unexpected plan: {other:?}"),
    }
}
