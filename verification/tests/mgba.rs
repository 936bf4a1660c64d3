use mgba_gateway::ipc::{WorkerCommand, WorkerCommandV1, WorkerResponse, WorkerResponseV1};
use mgba_gateway::mgba::ipc_transport::{parse_message_to_command, response_to_string};
use mgba_gateway::mgba::{
    ACK_MESSAGE, ERROR_MARKER, SUCCESS_MARKER, TERMINATION_MARKER, format_message,
};


#[test]
fn parse_read8_command() {
    let msg = format!("core.read8,0x02000000{TERMINATION_MARKER}");
    let cmd = parse_message_to_command(&msg).unwrap();
    assert!(matches!(
        cmd,
        WorkerCommand::V1(WorkerCommandV1::ReadMemory {
            address: 0x02000000,
            size: 1
        })
    ));
}

#[test]
fn parse_read16_command() {
    let msg = format!("core.read16,0x02000000{TERMINATION_MARKER}");
    let cmd = parse_message_to_command(&msg).unwrap();
    assert!(matches!(
        cmd,
        WorkerCommand::V1(WorkerCommandV1::ReadMemory {
            address: 0x02000000,
            size: 2
        })
    ));
}

#[test]
fn parse_read_range_command() {
    let msg = format!("core.readRange,0x02000000,16{TERMINATION_MARKER}");
    let cmd = parse_message_to_command(&msg).unwrap();
    assert!(matches!(
        cmd,
        WorkerCommand::V1(WorkerCommandV1::ReadMemory {
            address: 0x02000000,
            size: 16
        })
    ));
}

#[test]
fn parse_write8_command() {
    let msg = format!("core.write8,0x02000000,42{TERMINATION_MARKER}");
    let cmd = parse_message_to_command(&msg).unwrap();
    match cmd {
        WorkerCommand::V1(WorkerCommandV1::WriteMemory { address, data }) => {
            assert_eq!(address, 0x02000000);
            assert_eq!(data, vec![42]);
        }
        _ => panic!("expected WriteMemory"),
    }
}

#[test]
fn parse_button_tap_command() {
    let msg = format!("mgba-http.button.tap,A{TERMINATION_MARKER}");
    let cmd = parse_message_to_command(&msg).unwrap();
    assert!(matches!(
        cmd,
        WorkerCommand::V1(WorkerCommandV1::ButtonTap { .. })
    ));
    if let WorkerCommand::V1(WorkerCommandV1::ButtonTap { button }) = cmd {
        assert_eq!(button, "A");
    }
}

#[test]
fn parse_button_hold_command() {
    let msg = format!("mgba-http.button.hold,B,30{TERMINATION_MARKER}");
    let cmd = parse_message_to_command(&msg).unwrap();
    assert!(matches!(
        cmd,
        WorkerCommand::V1(WorkerCommandV1::ButtonHold {
            duration_frames: 30,
            ..
        })
    ));
}

#[test]
fn parse_button_hold_uses_default_when_missing_duration() {
    let msg = format!("mgba-http.button.hold,B{TERMINATION_MARKER}");
    let cmd = parse_message_to_command(&msg).unwrap();
    assert!(matches!(
        cmd,
        WorkerCommand::V1(WorkerCommandV1::ButtonHold {
            duration_frames: 15,
            ..
        })
    ));
}

#[test]
fn parse_save_state_command() {
    let msg = format!("core.saveStateSlot,1{TERMINATION_MARKER}");
    let cmd = parse_message_to_command(&msg).unwrap();
    assert!(matches!(
        cmd,
        WorkerCommand::V1(WorkerCommandV1::SaveState { slot: 1 })
    ));
}

#[test]
fn parse_load_state_command() {
    let msg = format!("core.loadStateSlot,2{TERMINATION_MARKER}");
    let cmd = parse_message_to_command(&msg).unwrap();
    assert!(matches!(
        cmd,
        WorkerCommand::V1(WorkerCommandV1::LoadState { slot: 2 })
    ));
}

#[test]
fn parse_reset_command() {
    let msg = format!("core.reset{TERMINATION_MARKER}");
    let cmd = parse_message_to_command(&msg).unwrap();
    assert!(matches!(cmd, WorkerCommand::V1(WorkerCommandV1::Reset)));
}

#[test]
fn parse_restart_aliases_to_reset() {
    let msg = format!("restart{TERMINATION_MARKER}");
    let cmd = parse_message_to_command(&msg).unwrap();
    assert!(matches!(cmd, WorkerCommand::V1(WorkerCommandV1::Reset)));
}

#[test]
fn parse_health_command() {
    let msg = format!("health{TERMINATION_MARKER}");
    let cmd = parse_message_to_command(&msg).unwrap();
    assert!(matches!(cmd, WorkerCommand::V1(WorkerCommandV1::Ping)));
}

#[test]
fn unknown_command_returns_none() {
    let msg = format!("unknown.command{TERMINATION_MARKER}");
    assert!(parse_message_to_command(&msg).is_none());
}

#[test]
fn message_without_termination_returns_none() {
    let msg = "core.read8,0x02000000".to_string();
    assert!(parse_message_to_command(&msg).is_none());
}

#[test]
fn memory_data_single_byte_response() {
    let response = WorkerResponse::V1(WorkerResponseV1::MemoryData { data: vec![42] });
    let s = response_to_string(response);
    assert!(s.contains("42"));
    assert!(s.contains(SUCCESS_MARKER));
}

#[test]
fn memory_data_two_byte_response_decodes_le() {
    let response =
        WorkerResponse::V1(WorkerResponseV1::MemoryData { data: vec![0x34, 0x12] });
    let s = response_to_string(response);
    assert!(s.contains("4660"));
}

#[test]
fn memory_data_range_response_is_hex() {
    let response = WorkerResponse::V1(WorkerResponseV1::MemoryData {
        data: vec![0xde, 0xad, 0xbe, 0xef],
    });
    let s = response_to_string(response);
    assert!(s.contains("deadbeef"));
}

#[test]
fn error_response_prefixed_with_error() {
    let response = WorkerResponse::V1(WorkerResponseV1::Error {
        message: "boom".to_string(),
    });
    let s = response_to_string(response);
    assert!(s.starts_with("error:"));
    assert!(s.contains("boom"));
}

#[test]
fn current_frame_response_contains_frame_number() {
    let response =
        WorkerResponse::V1(WorkerResponseV1::CurrentFrame { frame_number: 12345 });
    let s = response_to_string(response);
    assert!(s.contains("12345"));
}


#[test]
fn format_message_without_args() {
    let no_args: &[&str] = &[];
    assert_eq!(
        format_message("core.currentFrame", no_args),
        "core.currentFrame<|END|>"
    );
}

#[test]
fn format_message_with_one_arg() {
    assert_eq!(
        format_message("mgba-http.button.tap", &["A"]),
        "mgba-http.button.tap,A<|END|>"
    );
}

#[test]
fn format_message_with_multiple_args() {
    assert_eq!(
        format_message("core.readRange", &["0xD35E", "16"]),
        "core.readRange,0xD35E,16<|END|>"
    );
}

#[test]
fn format_message_string_args() {
    let args: Vec<String> = vec!["System Bus".to_string(), "49152".to_string()];
    assert_eq!(
        format_message("memoryDomain.read8", &args),
        "memoryDomain.read8,System Bus,49152<|END|>"
    );
}

#[test]
fn termination_marker_constant() {
    assert_eq!(TERMINATION_MARKER, "<|END|>");
}

#[test]
fn success_marker_constant() {
    assert_eq!(SUCCESS_MARKER, "<|SUCCESS|>");
}

#[test]
fn error_marker_constant() {
    assert_eq!(ERROR_MARKER, "<|ERROR|>");
}

#[test]
fn ack_message_constant() {
    assert_eq!(ACK_MESSAGE, "<|ACK|>");
}
