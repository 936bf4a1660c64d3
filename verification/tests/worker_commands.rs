use mgba_gateway::ipc::{PixelFormat, WorkerCommand, WorkerCommandV1, WorkerResponseV1};
use mgba_gateway::worker::args::parse_args;
use mgba_gateway::worker::commands::{
    CoreOutcome, WorkerAction, WorkerAnswer, WorkerFrame, action_answer, button_state,
    button_to_bit, core_response, frame_packet, picture_response, plan_request, press, release,
};
use mgba_gateway::worker::emulator::{
    CoreCommand, RomOutcome, SaveStates, loaded_rom, loaded_state, ram_unavailable, read_memory,
    system_ram_range, write_memory,
};
use mgba_gateway::worker::environment::LibretroError;

fn args(words: &[&str]) -> Vec<String> {
    words.iter().map(|w| w.to_string()).collect()
}

#[test]
fn options_are_read_in_any_order() {
    let parsed = parse_args(&args(&[
        "worker", "--core", "c", "stray", "--socket", "s1", "--socket", "s2", "--frame-socket", "f",
    ]))
    .unwrap();
    assert_eq!(parsed.socket_path, "s2");
    assert_eq!(parsed.frame_socket_path, "f");
    assert_eq!(parsed.core_path, "c");
    assert_eq!(parsed.rom_path, None);
    let parsed = parse_args(&args(&[
        "worker", "--socket", "--core", "--frame-socket", "f", "--core", "c", "--rom", "r",
    ]))
    .unwrap();
    assert_eq!(parsed.socket_path, "--core");
    assert_eq!(parsed.rom_path.as_deref(), Some("r"));
}

#[test]
fn missing_options_are_named() {
    let error = |words: &[&str]| parse_args(&args(words)).unwrap_err();
    assert_eq!(error(&[]), "--socket required");
    assert_eq!(error(&["worker"]), "--socket required");
    assert_eq!(error(&["worker", "--socket", "s"]), "--frame-socket required");
    assert_eq!(
        error(&["worker", "--socket", "s", "--frame-socket", "f"]),
        "--core required"
    );
    assert_eq!(
        error(&["worker", "--core", "c", "--frame-socket", "f", "--socket", "s", "--core"]),
        "--core required"
    );
}

#[test]
fn buttons_have_bits() {
    let names = [
        "B", "Y", "Select", "Start", "Up", "Down", "Left", "Right", "A", "X", "L", "R",
    ];
    for (bit, name) in names.into_iter().enumerate() {
        assert_eq!(button_to_bit(name), Some(bit as u32));
    }
    assert_eq!(button_to_bit("a"), None);
    let down = press(0b1000, 1);
    assert_eq!(down, 0b1010);
    assert_eq!(button_state(down, 1), 1);
    assert_eq!(button_state(down, 2), 0);
    assert_eq!(release(down, 1), 0b1000);
    assert_eq!(release(0b1000, 1), 0b1000);
}

fn plan(command: WorkerCommandV1) -> WorkerAction {
    plan_request(WorkerCommand::V1(command))
}

#[test]
fn each_request_has_its_action() {
    assert!(matches!(
        plan(WorkerCommandV1::Ping),
        WorkerAction::Reply(WorkerResponseV1::Pong)
    ));
    assert!(matches!(plan(WorkerCommandV1::GetCurrentFrame), WorkerAction::TellFrame));
    assert!(matches!(
        plan(WorkerCommandV1::SetInputState { buttons: 5 }),
        WorkerAction::SetInput { buttons: 5 }
    ));
    assert!(matches!(
        plan(WorkerCommandV1::ButtonTap { button: "A".to_string() }),
        WorkerAction::Press { bit: 8, hold_ms: 50 }
    ));
    assert!(matches!(
        plan(WorkerCommandV1::ButtonHold {
            button: "Start".to_string(),
            duration_frames: 90
        }),
        WorkerAction::Press { bit: 3, hold_ms: 1500 }
    ));
    assert!(matches!(
        plan(WorkerCommandV1::ButtonTap { button: "?".to_string() }),
        WorkerAction::Reply(WorkerResponseV1::Done)
    ));
    assert!(matches!(
        plan(WorkerCommandV1::Reset),
        WorkerAction::AskCore(CoreCommand::Reset)
    ));
    assert!(matches!(plan(WorkerCommandV1::Shutdown), WorkerAction::Shutdown));
    assert!(matches!(plan(WorkerCommandV1::TakeScreenshot), WorkerAction::TellPicture));
    assert!(matches!(
        plan(WorkerCommandV1::ReadMemory { address: 1, size: 2 }),
        WorkerAction::AskCore(CoreCommand::ReadMemory { address: 1, size: 2 })
    ));
    assert!(matches!(
        plan(WorkerCommandV1::SaveState { slot: 3 }),
        WorkerAction::AskCore(CoreCommand::SaveState { slot: 3 })
    ));
    assert!(matches!(
        plan(WorkerCommandV1::LoadState { slot: 3 }),
        WorkerAction::AskCore(CoreCommand::LoadState { slot: 3 })
    ));
    assert!(matches!(
        plan(WorkerCommandV1::LoadRom { path: "p".to_string() }),
        WorkerAction::AskCore(CoreCommand::LoadRom { .. })
    ));
    assert!(matches!(
        plan(WorkerCommandV1::WriteMemory { address: 1, data: vec![2] }),
        WorkerAction::AskCore(CoreCommand::WriteMemory { .. })
    ));
}

fn error(message: &str) -> WorkerResponseV1 {
    WorkerResponseV1::Error {
        message: message.to_string(),
    }
}

#[test]
fn pictures_are_told_and_packed() {
    assert_eq!(picture_response(None), error("no frame captured yet"));
    let mut frame = WorkerFrame {
        width: 1,
        height: 1,
        pitch: 4,
        data: vec![1, 2, 3, 4],
    };
    assert_eq!(
        picture_response(Some(&frame)),
        WorkerResponseV1::Frame {
            width: 1,
            height: 1,
            pitch: 4,
            pixel_format: PixelFormat::XRGB8888,
            data: vec![1, 2, 3, 4]
        }
    );
    let packet = frame_packet(&frame).unwrap();
    assert_eq!(packet.pitch, 4);
    assert_eq!(packet.pixel_format, 0);
    assert_eq!(packet.data, frame.data);
    frame.pitch = u32::MAX as usize + 1;
    assert!(frame_packet(&frame).is_none());
}

fn ready(command: WorkerCommandV1, latest: Option<&WorkerFrame>) -> WorkerResponseV1 {
    match action_answer(plan(command), 77, latest) {
        WorkerAnswer::Ready(response) => response,
        other => panic!("unexpected answer {other:?}"),
    }
}

#[test]
fn each_action_has_its_answer() {
    assert_eq!(ready(WorkerCommandV1::Ping, None), WorkerResponseV1::Pong);
    assert_eq!(
        ready(WorkerCommandV1::GetCurrentFrame, None),
        WorkerResponseV1::CurrentFrame { frame_number: 77 }
    );
    for command in [
        WorkerCommandV1::SetInputState { buttons: 5 },
        WorkerCommandV1::ButtonTap { button: "A".to_string() },
        WorkerCommandV1::ButtonTap { button: "?".to_string() },
        WorkerCommandV1::Shutdown,
    ] {
        assert_eq!(ready(command, None), WorkerResponseV1::Done);
    }
    assert_eq!(
        ready(WorkerCommandV1::TakeScreenshot, None),
        error("no frame captured yet")
    );
    let frame = WorkerFrame {
        width: 1,
        height: 1,
        pitch: 4,
        data: vec![1, 2, 3, 4],
    };
    assert_eq!(
        ready(WorkerCommandV1::TakeScreenshot, Some(&frame)),
        picture_response(Some(&frame))
    );
    assert!(matches!(
        action_answer(plan(WorkerCommandV1::Reset), 77, None),
        WorkerAnswer::FromCore(CoreCommand::Reset)
    ));
}

#[test]
fn core_outcomes_have_words() {
    assert_eq!(
        core_response(CoreOutcome::Answered(WorkerResponseV1::Pong)),
        WorkerResponseV1::Pong
    );
    assert_eq!(
        core_response(CoreOutcome::Unavailable),
        error("emulator thread is unavailable")
    );
    assert_eq!(
        core_response(CoreOutcome::TimedOut("late".to_string())),
        error("emulator command timed out: late")
    );
    assert_eq!(
        core_response(CoreOutcome::WaitFailed("lost".to_string())),
        error("emulator command wait failed: lost")
    );
}

#[test]
fn memory_is_read_and_written() {
    let mut ram = vec![0u8; 16];
    assert_eq!(write_memory(&mut ram, 0x0200_0004, &[1, 2, 3]), WorkerResponseV1::Done);
    assert_eq!(&ram[3..8], &[0, 1, 2, 3, 0]);
    assert_eq!(
        read_memory(Some(&ram), 4, 3),
        WorkerResponseV1::MemoryData { data: vec![1, 2, 3] }
    );
    assert_eq!(
        write_memory(&mut ram, 14, &[9, 9, 9]),
        error("memory range 0x0000000e+3 exceeds system RAM size 16")
    );
    assert_eq!(ram[14], 0);
    assert_eq!(
        read_memory(Some(&ram), 0x0200_0010, 1),
        error("memory range 0x02000010+1 exceeds system RAM size 16")
    );
    assert_eq!(
        read_memory(Some(&ram), 0x0200_0010, 0),
        WorkerResponseV1::MemoryData { data: vec![] }
    );
    assert_eq!(read_memory(None, 0, 1), error("system RAM is unavailable"));
    assert_eq!(ram_unavailable(), error("system RAM is unavailable"));
    assert_eq!(
        system_ram_range(u32::MAX, u32::MAX, 3).unwrap_err(),
        "memory range 0xffffffff+4294967295 exceeds system RAM size 3"
    );
}

#[test]
fn states_are_saved_and_loaded() {
    let mut states = SaveStates::new();
    assert_eq!(states.load(1).unwrap_err(), error("state slot 1 is empty"));
    assert_eq!(
        states.save(1, 0, None),
        error("save states are unsupported by this core")
    );
    assert_eq!(states.save(1, 4, None), error("failed to save state slot 1"));
    assert_eq!(
        states.save(1, 2, Some(vec![7, 8])),
        WorkerResponseV1::StateData { data: vec![7, 8] }
    );
    assert_eq!(states.load(1).unwrap(), &vec![7, 8]);
    assert!(states.load(2).is_err());
    assert_eq!(loaded_state(1, true), WorkerResponseV1::Done);
    assert_eq!(loaded_state(1, false), error("failed to load state slot 1"));
    assert_eq!(loaded_rom("p", RomOutcome::Loaded), WorkerResponseV1::Done);
    assert_eq!(loaded_rom("p", RomOutcome::Refused), error("failed to load ROM: p"));
    assert_eq!(
        loaded_rom("p", RomOutcome::InvalidPath("nul".to_string())),
        error("invalid ROM path: nul")
    );
}

#[test]
fn core_errors_have_words() {
    assert_eq!(
        LibretroError::Load("gone".to_string()).message(),
        "failed to load library: gone"
    );
    assert_eq!(
        LibretroError::Symbol { name: "retro_run" }.message(),
        "symbol not found: retro_run"
    );
    assert_eq!(LibretroError::LoadGameFailed.message(), "retro_load_game failed");
    assert_eq!(
        LibretroError::ApiVersion(7).message(),
        "unsupported API version: 7"
    );
}
