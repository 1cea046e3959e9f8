use serial_tool::cli::{CliError, CliFlowControl, CliParity};
use serial_tool::http::{parse_request_line, parse_usize, RequestReader};
use serial_tool::json::{JsonMember, JsonNumber, JsonValue};
use serial_tool::worker::{
    accept_action, control_urls, execute, failure_exit_code, parse_command, pass_end,
    response_head, route, runner_failure, stop_body_accepted, ControlAction, Endpoint,
    JobIdentity, Operation, PassEnd, WorkerArgs, WorkerFailure, WorkerMode, WorkerState,
};
use serial_tool::{SerialSession, SimulationTransport};

fn from_serde(value: &serde_json::Value) -> JsonValue {
    match value {
        serde_json::Value::Null => JsonValue::Null,
        serde_json::Value::Bool(b) => JsonValue::Bool(*b),
        serde_json::Value::Number(n) => JsonValue::Number(match (n.as_u64(), n.as_i64()) {
            (Some(u), _) => JsonNumber::Unsigned(u),
            (None, Some(i)) => JsonNumber::Negative(i),
            _ => JsonNumber::Fractional,
        }),
        serde_json::Value::String(s) => JsonValue::Text(s.clone()),
        serde_json::Value::Array(items) => JsonValue::Array(items.iter().map(from_serde).collect()),
        serde_json::Value::Object(map) => JsonValue::Object(
            map.iter()
                .map(|(key, value)| JsonMember {
                    key: key.clone(),
                    value: from_serde(value),
                })
                .collect(),
        ),
    }
}

fn parse(body: &str) -> Result<(JobIdentity, Operation), serial_tool::worker::Rejection> {
    let parsed = serde_json::from_str::<serde_json::Value>(body).ok().map(|v| from_serde(&v));
    parse_command(parsed.as_ref())
}

#[test]
fn strict_command_envelope_and_argument_validation() {
    for body in [
        r#"{"schema_version":1,"command":"send"}"#,
        r#"{"schema_version":"2","command":"send"}"#,
        r#"{"schema_version":2.0,"command":"send"}"#,
        r#"{"schema_version":true,"command":"send"}"#,
        r#"{"schema_version":2,"command":"send","arguments":{"tx_hex":"00"},"extra":1}"#,
        r#"{"schema_version":2,"command":"send","arguments":{"tx_hex":"00"},"context":{}}"#,
        r#"{"schema_version":2,"command":"send","arguments":[]}"#,
        r#"{"schema_version":2,"command":"send","job_id":3}"#,
        r#"{"schema_version":2,"command":"unknown"}"#,
        r#"{"schema_version":2,"command":"send","arguments":{"tx_hex":"00","extra":1}}"#,
        r#"{"schema_version":2,"command":"send","arguments":{"tx_hex":"0g"}}"#,
        r#"{"schema_version":2,"command":"receive","arguments":{"max_bytes":true}}"#,
        r#"{"schema_version":2,"command":"receive","arguments":{"max_bytes":0}}"#,
        "not json",
    ] {
        assert!(parse(body).is_err(), "accepted: {body}");
    }
}

#[test]
fn command_refusals_name_what_was_read() {
    let rejection = parse("not json").unwrap_err();
    assert_eq!(rejection.message, "malformed JSON");
    assert!(rejection.command.is_none() && rejection.job_id.is_none());
    let rejection = parse("[]").unwrap_err();
    assert_eq!(rejection.message, "request must be an object");
    let rejection = parse(r#"{"schema_version":2,"command":"send","job_id":"c1","x":1}"#).unwrap_err();
    assert_eq!(rejection.message, "unknown top-level field");
    assert_eq!(rejection.command.as_deref(), Some("send"));
    assert_eq!(rejection.job_id.as_deref(), Some("c1"));
    let rejection = parse(r#"{"schema_version":2,"command":""}"#).unwrap_err();
    assert_eq!(rejection.message, "command must be a non-empty string");
    assert!(rejection.command.is_none());
    let rejection = parse(r#"{"schema_version":2,"command":"send","job_id":3}"#).unwrap_err();
    assert_eq!(rejection.message, "job_id must be a string");
    let rejection = parse(r#"{"schema_version":2,"command":"receive","arguments":{"max_bytes":true}}"#).unwrap_err();
    assert_eq!(rejection.message, "max_bytes must be an integer");
    let rejection = parse(r#"{"schema_version":2,"command":"receive","arguments":{"max_bytes":0}}"#).unwrap_err();
    assert_eq!(rejection.message, "max_bytes must be between 1 and 1048576");
    let rejection = parse(r#"{"schema_version":2,"command":"send","arguments":{"tx_hex":7}}"#).unwrap_err();
    assert_eq!(rejection.message, "required hex argument must be a string");
    let rejection = parse(r#"{"schema_version":2,"command":"send","arguments":{"tx_hex":"0g"}}"#).unwrap_err();
    assert_eq!(rejection.message, "invalid hex bytes");
    let rejection = parse(
        r#"{"schema_version":2,"command":"query","arguments":{"tx_hex":"00","delimiter_hex":"0d0a","max_bytes":1}}"#,
    )
    .unwrap_err();
    assert_eq!(rejection.message, "max_bytes must be at least delimiter length");
}

#[test]
fn accepted_commands_carry_their_operation() {
    let (identity, operation) =
        parse(r#"{"schema_version":2,"command":"send","job_id":"client-1","arguments":{"tx_hex":"00 55 AA FF 0D 0A"}}"#).unwrap();
    assert_eq!(identity.command, "send");
    assert_eq!(identity.job_id.as_deref(), Some("client-1"));
    assert_eq!(operation, Operation::Send(vec![0, 0x55, 0xaa, 0xff, 0x0d, 0x0a]));
    let (_, operation) = parse(r#"{"schema_version":2,"command":"receive"}"#).unwrap();
    assert_eq!(operation, Operation::Receive(1024));
    let (_, operation) = parse(
        r#"{"schema_version":2,"command":"query","arguments":{"tx_hex":"00","delimiter_hex":"0D 0A"}}"#,
    )
    .unwrap();
    assert_eq!(operation, Operation::Query(vec![0], vec![0x0d, 0x0a], 1024));
}

fn identity(command: &str) -> JobIdentity {
    JobIdentity {
        worker_job_id: String::new(),
        command: command.into(),
        job_id: None,
    }
}

#[test]
fn job_slot_admits_one_job_at_a_time() {
    let mut state = WorkerState::new();
    assert_eq!(state.status(), "ready");
    let first = state.take_job(identity("send")).unwrap();
    assert_eq!(first.worker_job_id, "job-1");
    assert_eq!(state.status(), "busy");
    assert_eq!(state.take_job(identity("receive")).unwrap_err(), "busy");
    assert_eq!(state.accepted, 1);
    state.finish(true, JsonValue::Null);
    assert_eq!(state.succeeded, 1);
    let second = state.take_job(identity("receive")).unwrap();
    assert_eq!(second.worker_job_id, "job-2");
    state.finish(false, JsonValue::Null);
    assert_eq!(state.failed, 1);
    assert!(state.request_stop());
    assert!(!state.request_stop());
    assert_eq!(state.status(), "stopping");
    assert_eq!(state.take_job(identity("send")).unwrap_err(), "stopping");
    assert!(state.drained());
}

#[test]
fn jobs_run_their_operation_on_the_session() {
    let mut session = SerialSession::new(SimulationTransport::loopback());
    let sent = execute(&mut session, Operation::Send(vec![0x0d, 0x0a])).unwrap();
    match &sent {
        JsonValue::Object(members) => {
            assert_eq!(members[0].key, "tx_hex");
            assert_eq!(members[0].value, JsonValue::Text("0d0a".into()));
        }
        other => panic!("{other:?}"),
    }
    let queried = execute(&mut session, Operation::Query(vec![0x41, 0x0a], vec![0x0a], 8)).unwrap();
    match &queried {
        JsonValue::Object(members) => {
            assert_eq!(members[2].key, "rx_hex");
            assert_eq!(members[2].value, JsonValue::Text("0d0a".into()));
            assert_eq!(members[4].value, JsonValue::Text("0a".into()));
        }
        other => panic!("{other:?}"),
    }
}

fn worker_args(mode: WorkerMode, port: Option<&str>, profile: Option<&str>) -> WorkerArgs {
    WorkerArgs {
        mode,
        port: port.map(String::from),
        baud: 115200,
        data_bits: 8,
        parity: CliParity::NoParity,
        stop_bits: 1,
        flow_control: CliFlowControl::NoFlowControl,
        timeout_ms: 1000,
        simulation_profile_id: profile.map(String::from),
        control_port: 0,
    }
}

#[test]
fn worker_options_admit_one_resource() {
    let input = |args: WorkerArgs| match args.settings() {
        Err(CliError::Input(message)) => message,
        other => panic!("{other:?}"),
    };
    assert_eq!(
        input(worker_args(WorkerMode::Live, None, None)),
        "live requires --port and forbids --simulation-profile-id"
    );
    assert_eq!(
        input(worker_args(WorkerMode::Simulate, None, Some("unknown"))),
        "simulate requires --simulation-profile-id loopback-v1 and forbids --port"
    );
    assert_eq!(
        input(worker_args(WorkerMode::Simulate, Some("COM4"), Some("loopback-v1"))),
        "simulate requires --simulation-profile-id loopback-v1 and forbids --port"
    );
    let settings = worker_args(WorkerMode::Simulate, None, Some("loopback-v1")).settings().unwrap();
    assert_eq!(settings.port, "simulation");
    let settings = worker_args(WorkerMode::Live, Some("COM4"), None).settings().unwrap();
    assert_eq!(settings.port, "COM4");
}

#[test]
fn http_framing_follows_the_control_protocol() {
    assert_eq!(route("GET", "/status"), Endpoint::Status);
    assert_eq!(route("POST", "/command"), Endpoint::Command);
    assert_eq!(route("POST", "/stop"), Endpoint::Stop);
    assert_eq!(route("GET", "/command"), Endpoint::NotFound);
    let (method, path) = parse_request_line("POST /command HTTP/1.1\r\n").unwrap();
    assert_eq!((method.as_str(), path.as_str()), ("POST", "/command"));
    assert!(parse_request_line("GET /status HTTP/1.0\r\n").is_ok());
    assert_eq!(parse_request_line("\r\n").unwrap_err(), "missing method");
    assert_eq!(parse_request_line("GET\r\n").unwrap_err(), "missing path");
    assert_eq!(parse_request_line("GET / HTTP/2\r\n").unwrap_err(), "invalid HTTP version");
    let mut reader = RequestReader::start("POST /command HTTP/1.1\r\n");
    assert_eq!(reader.take_line("Host: 127.0.0.1\r\n"), Ok(false));
    assert_eq!(reader.take_line("content-LENGTH:  12 \r\n"), Ok(false));
    assert_eq!(reader.take_line("\r\n"), Ok(true));
    assert_eq!(reader.body_length(), Ok(12));
    let mut bad = RequestReader::start("POST /command HTTP/1.1\r\n");
    assert_eq!(bad.take_line("Content-Length: x\r\n"), Err("invalid content length"));
    assert_eq!(bad.take_line(""), Err("incomplete headers"));
    let mut big = RequestReader::start("POST / HTTP/1.1\r\n");
    assert_eq!(big.take_line("Content-Length: 16777217\r\n"), Ok(false));
    assert_eq!(big.body_length(), Err("body too large"));
    let long = format!("X-Fill: {}\r\n", "a".repeat(16400));
    let mut huge = RequestReader::start("POST / HTTP/1.1\r\n");
    assert_eq!(huge.take_line(&long), Err("headers too large"));
    assert_eq!(parse_usize("+42"), Some(42));
    assert_eq!(parse_usize("4 2"), None);
    assert_eq!(parse_usize(""), None);
    assert_eq!(
        response_head(409, 2),
        "HTTP/1.1 409 Conflict\r\nContent-Type: application/json\r\nContent-Length: 2\r\nConnection: close\r\n\r\n"
    );
    assert!(stop_body_accepted(0, None));
    assert!(stop_body_accepted(2, Some(&JsonValue::Object(vec![]))));
    assert!(!stop_body_accepted(4, None));
    let (status, command, stop) = control_urls(8080);
    assert_eq!(status, "http://127.0.0.1:8080/status");
    assert_eq!(command, "http://127.0.0.1:8080/command");
    assert_eq!(stop, "http://127.0.0.1:8080/stop");
}

#[test]
fn worker_exit_codes_follow_the_failure() {
    assert_eq!(failure_exit_code(WorkerFailure::Settings), 2);
    assert_eq!(failure_exit_code(WorkerFailure::Open), 3);
    assert_eq!(failure_exit_code(WorkerFailure::Bind), 3);
    assert_eq!(failure_exit_code(WorkerFailure::Control), 3);
}

#[test]
fn control_loop_checks_the_runner_then_the_listener() {
    assert_eq!(
        runner_failure(true, false).as_deref(),
        Some("runner stopped unexpectedly")
    );
    assert_eq!(runner_failure(true, true), None);
    assert_eq!(runner_failure(false, false), None);
    assert!(matches!(accept_action(Ok(())), ControlAction::Serve));
    let idle = std::io::Error::new(std::io::ErrorKind::WouldBlock, "later");
    assert!(matches!(accept_action(Err(idle)), ControlAction::Idle));
    let broken = std::io::Error::other("listener closed");
    match accept_action(Err(broken)) {
        ControlAction::Fail { message } => {
            assert_eq!(message, "HTTP control failure: listener closed")
        }
        other => panic!("unexpected action {other:?}"),
    }
}

#[test]
fn control_loop_ends_after_the_grace_period() {
    assert_eq!(pass_end(false, None), PassEnd::Sleep { millis: 10 });
    assert_eq!(pass_end(false, Some(true)), PassEnd::Sleep { millis: 10 });
    assert_eq!(
        pass_end(true, None),
        PassEnd::StartGrace { grace_millis: 200, millis: 10 }
    );
    assert_eq!(pass_end(true, Some(false)), PassEnd::Sleep { millis: 10 });
    assert_eq!(pass_end(true, Some(true)), PassEnd::Finish);
}
