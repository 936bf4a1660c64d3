use mgba_gateway::gateway::api::{SessionRequest, plan_request};
use mgba_gateway::gateway::commands::validate_command;
use mgba_gateway::ipc::{WorkerResponse, WorkerResponseV1};
use mgba_gateway::mgba::ipc_transport::{plan_call, response_to_string};
use mgba_gateway::time::Timestamp;
use mgba_gateway::worker::commands::{WorkerAction, plan_request as plan_work};
use mgba_gateway::worker::emulator::{CoreCommand, read_memory, write_memory};

// Takes a request all the way to the memory of an emulator, and its answer back.
fn ask(ram: &mut Vec<u8>, request: SessionRequest) -> String {
    let command = validate_command(plan_request(request).command).unwrap();
    let response = match plan_work(plan_call(&command).unwrap()) {
        WorkerAction::Reply(response) => response,
        WorkerAction::AskCore(CoreCommand::ReadMemory { address, size }) => {
            read_memory(Some(ram), address, size)
        }
        WorkerAction::AskCore(CoreCommand::WriteMemory { address, data }) => {
            write_memory(ram, address, &data)
        }
        WorkerAction::TellFrame => WorkerResponseV1::CurrentFrame { frame_number: 7 },
        other => panic!("unexpected action {other:?}"),
    };
    response_to_string(WorkerResponse::V1(response))
}

fn text(s: &str) -> String {
    s.to_string()
}

#[test]
fn what_is_written_is_read_back() {
    let mut ram = vec![0u8; 32];
    let write = SessionRequest::Write8 {
        address: text("0x02000004"),
        value: text("0x1fe"),
    };
    assert_eq!(ask(&mut ram, write), "ok<|SUCCESS|>");
    let read = SessionRequest::Read8 { address: text("4") };
    assert_eq!(ask(&mut ram, read), "254<|SUCCESS|>");

    let write = SessionRequest::Write16 {
        address: text("8"),
        value: text("74565"),
    };
    ask(&mut ram, write);
    let read = SessionRequest::Read16 { address: text("0x8") };
    assert_eq!(ask(&mut ram, read), format!("{}<|SUCCESS|>", 74565 % 65536));

    let write = SessionRequest::Write32 {
        address: text("12"),
        value: text("0xdeadbeef"),
    };
    ask(&mut ram, write);
    let read = SessionRequest::ReadRange {
        address: text("11"),
        length: text("6"),
    };
    assert_eq!(ask(&mut ram, read), "00efbeadde00<|SUCCESS|>");
}

#[test]
fn accesses_outside_the_memory_are_told() {
    let mut ram = vec![0u8; 4];
    let read = SessionRequest::Read16 { address: text("3") };
    assert_eq!(
        ask(&mut ram, read),
        "error:memory range 0x00000003+2 exceeds system RAM size 4"
    );
    assert_eq!(ask(&mut ram, SessionRequest::CurrentFrame), "7<|SUCCESS|>");
}

#[test]
fn spans_add_up_to_the_millisecond() {
    let at = |nanos: u32| Timestamp { secs: 1, nanos };
    let (a, b, c) = (at(0), at(1_600_000), at(3_200_000));
    assert_eq!(a.millis_to(b), 1);
    assert_eq!(b.millis_to(c), 1);
    assert_eq!(a.millis_to(c), 3);
    assert_eq!(c.millis_to(a), -3);
}
