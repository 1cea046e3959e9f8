use std::time::Duration;

use serial_tool::desktop::{
    after_read, connection_request, monitor_step, parse_hex, port_dtos, read_size, run_outcome,
    run_request, send_input, Mode, MonitorAction, PortDto, ReadStep, RunResult, SettingsDto,
    POLL_INTERVAL_MS, READ_CHUNK,
};
use serial_tool::sequence::{Sequence, SequenceSerialConfig};
use serial_tool::discovery::{PortInfo, PortType, UsbInfo};
use serial_tool::{
    Error, Pause, SerialSession, SimulationTransport, Step, StepId, StepKind, StepRunner,
};

struct NoWait;

impl Pause for NoWait {
    fn pause(&mut self, _: Duration) {}
}

fn step(id: &str, kind: StepKind) -> Step {
    Step {
        id: StepId::new(id).unwrap(),
        kind,
    }
}

fn form(port: &str) -> SettingsDto {
    SettingsDto {
        port: port.into(),
        baud_rate: 115200,
        data_bits: 8,
        parity: "none".into(),
        stop_bits: 1,
        flow_control: "none".into(),
        timeout_ms: 1000,
    }
}

#[test]
fn sequence_results_show_bytes_and_transcript() {
    let mut session = SerialSession::new(SimulationTransport::loopback());
    let steps = [
        step("send-frame", StepKind::SendBytes(vec![0, 0x55, 0xaa, 0xff, 0x0d, 0x0a])),
        step(
            "read-frame",
            StepKind::ReadUntil {
                delimiter: vec![0x0d, 0x0a],
                max_bytes: 64,
            },
        ),
    ];
    let result = run_outcome(StepRunner::new(&mut session).run(&steps, &mut NoWait)).unwrap();
    assert_eq!(result.status, "success");
    assert_eq!(result.step_results.len(), 2);
    assert_eq!(result.step_results[0].step_id, "send-frame");
    assert_eq!(result.step_results[0].bytes_written, Some(6));
    assert_eq!(result.step_results[1].step_id, "read-frame");
    assert_eq!(
        result.step_results[1].bytes,
        Some(vec![0, 0x55, 0xaa, 0xff, 0x0d, 0x0a])
    );
    assert_eq!(result.transcript.len(), 2);
    assert_eq!(result.transcript[0].direction, "tx");
    assert_eq!(result.transcript[1].direction, "rx");
    assert_eq!(result.transcript[1].bytes, vec![0, 0x55, 0xaa, 0xff, 0x0d, 0x0a]);
}

#[test]
fn failed_runs_name_the_step_and_keep_partial_bytes() {
    let mut session = SerialSession::new(SimulationTransport::loopback());
    let steps = [
        step("send-a", StepKind::SendBytes(vec![0xaa])),
        step(
            "read-reply",
            StepKind::ReadUntil {
                delimiter: b"\n".to_vec(),
                max_bytes: 8,
            },
        ),
    ];
    let result: RunResult =
        run_outcome(StepRunner::new(&mut session).run(&steps, &mut NoWait)).unwrap();
    assert_eq!(result.status, "failed");
    assert_eq!(result.failing_step_id.as_deref(), Some("read-reply"));
    assert_eq!(result.error.as_deref(), Some("read timed out after 1 bytes"));
    assert_eq!(result.partial_bytes, Some(vec![0xaa]));
    assert_eq!(result.step_results.len(), 1);
    let invalid = [step("bad", StepKind::Read { max_bytes: 0 })];
    let message = run_outcome(StepRunner::new(&mut session).run(&invalid, &mut NoWait)).unwrap_err();
    assert_eq!(message, "invalid step bad: InvalidReadLimit");
}

#[test]
fn settings_form_and_connection_mode() {
    let settings = form("COM4").into_settings().unwrap();
    assert_eq!(settings.port, "COM4");
    let mut bad = form("COM4");
    bad.data_bits = 9;
    assert_eq!(bad.into_settings().unwrap_err(), "Data bits must be 5, 6, 7, or 8");
    let mut bad = form("COM4");
    bad.parity = "mark".into();
    assert_eq!(bad.into_settings().unwrap_err(), "Invalid parity");
    let mut bad = form("COM4");
    bad.stop_bits = 3;
    assert_eq!(bad.into_settings().unwrap_err(), "Stop bits must be 1 or 2");
    let mut bad = form("COM4");
    bad.flow_control = "xon".into();
    assert_eq!(bad.into_settings().unwrap_err(), "Invalid flow control");
    assert_eq!(
        form(" ").into_settings().unwrap_err(),
        "invalid configuration: port name must not be empty"
    );
    let (mode, dto) = connection_request("simulation", form("COM9")).unwrap();
    assert_eq!(mode, Mode::Simulation);
    assert_eq!(dto.port, "simulation");
    let (mode, dto) = connection_request("live", form("COM9")).unwrap();
    assert_eq!(mode, Mode::Live);
    assert_eq!(dto.port, "COM9");
    assert_eq!(connection_request("usb", form("COM9")).unwrap_err(), "Invalid connection mode");
}

#[test]
fn send_box_reads_text_and_hex() {
    assert_eq!(send_input("OK\r\n", "text").unwrap(), b"OK\r\n");
    assert_eq!(send_input("0d 0A", "hex").unwrap(), vec![0x0d, 0x0a]);
    assert_eq!(send_input("", "text").unwrap_err(), "Send data must not be empty");
    assert_eq!(send_input("00", "base64").unwrap_err(), "Invalid input format");
    assert_eq!(
        parse_hex(" ").unwrap_err(),
        "Hex input must contain a nonempty, even number of digits"
    );
    assert_eq!(
        parse_hex("0").unwrap_err(),
        "Hex input must contain a nonempty, even number of digits"
    );
    assert_eq!(parse_hex("zz").unwrap_err(), "Hex input contains invalid characters");
}

#[test]
fn monitor_reads_in_bounded_chunks() {
    assert_eq!(read_size(3), 3);
    assert_eq!(read_size(10000), 4096);
    assert!(matches!(after_read(Ok(2)), ReadStep::Received(2)));
    assert!(matches!(after_read(Ok(0)), ReadStep::Idle));
    assert!(matches!(after_read(Err(Error::Timeout { partial: vec![] })), ReadStep::Idle));
    match after_read(Err(Error::ReadFailed(std::io::Error::other("gone")))) {
        ReadStep::Failed(message) => assert!(message.starts_with("read failed: ")),
        _ => panic!("expected a failure"),
    }
}

#[test]
fn port_list_shows_usb_details_only_for_usb_ports() {
    let ports = vec![
        PortInfo {
            port_name: "COM3".into(),
            port_type: PortType::Usb(UsbInfo {
                vid: 0x2341,
                pid: 0x0043,
                serial_number: Some("A1".into()),
                manufacturer: None,
                product: Some("Uno".into()),
            }),
        },
        PortInfo {
            port_name: "COM1".into(),
            port_type: PortType::Pci,
        },
        PortInfo {
            port_name: "COM9".into(),
            port_type: PortType::Bluetooth,
        },
        PortInfo {
            port_name: "COM7".into(),
            port_type: PortType::Unknown,
        },
    ];
    let dtos = port_dtos(&ports);
    assert_eq!(
        dtos[0],
        PortDto {
            port_name: "COM3".into(),
            kind: "usb",
            vid: Some(0x2341),
            pid: Some(0x0043),
            serial_number: Some("A1".into()),
            manufacturer: None,
            product: Some("Uno".into()),
        }
    );
    assert_eq!(
        dtos.iter().map(|dto| dto.kind).collect::<Vec<_>>(),
        ["usb", "pci", "bluetooth", "unknown"]
    );
    for dto in &dtos[1..] {
        assert_eq!(dto.vid, None);
        assert_eq!(dto.pid, None);
        assert_eq!(dto.serial_number, None);
        assert_eq!(dto.product, None);
    }
    assert_eq!(dtos[3].port_name, "COM7");
}

#[test]
fn the_owner_handles_commands_before_reading() {
    assert!(matches!(
        monitor_step(true, true, Some(Ok(10))),
        MonitorAction::Handle
    ));
    assert!(matches!(
        monitor_step(false, false, None),
        MonitorAction::Stop { message: None }
    ));
    assert!(matches!(
        monitor_step(false, true, Some(Ok(0))),
        MonitorAction::Wait { millis } if millis == POLL_INTERVAL_MS
    ));
    assert!(matches!(
        monitor_step(false, true, Some(Ok(3))),
        MonitorAction::Read { size: 3 }
    ));
    assert!(matches!(
        monitor_step(false, true, Some(Ok(READ_CHUNK + 5))),
        MonitorAction::Read { size } if size == READ_CHUNK
    ));
    match monitor_step(
        false,
        true,
        Some(Err(Error::InvalidConfiguration("baud rate must be nonzero"))),
    ) {
        MonitorAction::Stop { message: Some(message) } => {
            assert_eq!(message, "invalid configuration: baud rate must be nonzero")
        }
        other => panic!("unexpected action {other:?}"),
    }
}

#[test]
fn runs_need_the_connection_line_settings() {
    let settings = form("COM4").into_settings().unwrap();
    let config = |baud_rate: u32| SequenceSerialConfig {
        baud_rate,
        data_bits: settings.data_bits,
        parity: settings.parity,
        stop_bits: settings.stop_bits,
        flow_control: settings.flow_control,
        timeout: settings.timeout,
    };
    let sequence = |baud_rate: u32| Sequence {
        sequence_version: 1,
        serial: config(baud_rate),
        steps: vec![step("send-byte", StepKind::SendBytes(vec![0xaa]))],
    };
    assert_eq!(run_request(&sequence(settings.baud_rate), &settings), Ok(()));
    assert_eq!(
        run_request(&sequence(9600), &settings).unwrap_err(),
        "Sequence serial settings do not match the current connection"
    );
}
