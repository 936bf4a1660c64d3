//! What a worker does for each request.
use crate::ipc::transport::RawFramePacket;
use crate::ipc::{PixelFormat, ResponseView, WorkerCommand, WorkerCommandV1, WorkerResponseV1};
use crate::text::{join2, text_eq};
use crate::worker::emulator::CoreCommand;
use vstd::prelude::*;

verus! {

/// How long a tapped button is held, in milliseconds.
pub const TAP_MS: u64 = 50;

/// How long the emulator may take for a request, in milliseconds.
pub const CORE_TIMEOUT_MS: u64 = 5000;

/// The latest picture of the emulator, with four bytes per pixel.
#[derive(Debug)]
pub struct WorkerFrame {
    pub width: u32,
    pub height: u32,
    pub pitch: usize,
    pub data: Vec<u8>,
}

/// The number of a button, which is its bit in the input state.
pub open spec fn button_bit(button: Seq<char>) -> Option<u32> {
    if button == "B"@ {
        Some(0)
    } else if button == "Y"@ {
        Some(1)
    } else if button == "Select"@ {
        Some(2)
    } else if button == "Start"@ {
        Some(3)
    } else if button == "Up"@ {
        Some(4)
    } else if button == "Down"@ {
        Some(5)
    } else if button == "Left"@ {
        Some(6)
    } else if button == "Right"@ {
        Some(7)
    } else if button == "A"@ {
        Some(8)
    } else if button == "X"@ {
        Some(9)
    } else if button == "L"@ {
        Some(10)
    } else if button == "R"@ {
        Some(11)
    } else {
        None
    }
}

/// The number of a button.
pub fn button_to_bit(button: &str) -> (bit: Option<u32>)
    ensures
        bit == button_bit(button@),
{
    if text_eq(button, "B") {
        Some(0)
    } else if text_eq(button, "Y") {
        Some(1)
    } else if text_eq(button, "Select") {
        Some(2)
    } else if text_eq(button, "Start") {
        Some(3)
    } else if text_eq(button, "Up") {
        Some(4)
    } else if text_eq(button, "Down") {
        Some(5)
    } else if text_eq(button, "Left") {
        Some(6)
    } else if text_eq(button, "Right") {
        Some(7)
    } else if text_eq(button, "A") {
        Some(8)
    } else if text_eq(button, "X") {
        Some(9)
    } else if text_eq(button, "L") {
        Some(10)
    } else if text_eq(button, "R") {
        Some(11)
    } else {
        None
    }
}

/// Whether a button is down.
pub open spec fn is_down(buttons: u32, bit: u32) -> bool {
    (buttons >> bit) & 1 == 1
}

/// The input state with one more button down.
pub fn press(buttons: u32, bit: u32) -> (after: u32)
    requires
        bit < 32,
    ensures
        after == buttons | (1u32 << bit),
        is_down(after, bit),
        forall|other: u32|
            other < 32 && other != bit ==> #[trigger] is_down(after, other) == is_down(
                buttons,
                other,
            ),
{
    let after: u32 = buttons | (1u32 << bit);
    assert((after >> bit) & 1 == 1) by (bit_vector)
        requires
            after == buttons | (1u32 << bit),
            bit < 32,
    ;
    assert forall|other: u32| other < 32 && other != bit implies #[trigger] is_down(after, other)
        == is_down(buttons, other) by {
        assert(((after >> other) & 1 == 1) == ((buttons >> other) & 1 == 1)) by (bit_vector)
            requires
                after == buttons | (1u32 << bit),
                bit < 32,
                other < 32,
                other != bit,
        ;
    }
    after
}

/// The input state with one button up.
pub fn release(buttons: u32, bit: u32) -> (after: u32)
    requires
        bit < 32,
    ensures
        after == buttons & !(1u32 << bit),
        !is_down(after, bit),
        forall|other: u32|
            other < 32 && other != bit ==> #[trigger] is_down(after, other) == is_down(
                buttons,
                other,
            ),
{
    let after: u32 = buttons & !(1u32 << bit);
    assert((after >> bit) & 1 != 1) by (bit_vector)
        requires
            after == buttons & !(1u32 << bit),
            bit < 32,
    ;
    assert forall|other: u32| other < 32 && other != bit implies #[trigger] is_down(after, other)
        == is_down(buttons, other) by {
        assert(((after >> other) & 1 == 1) == ((buttons >> other) & 1 == 1)) by (bit_vector)
            requires
                after == buttons & !(1u32 << bit),
                bit < 32,
                other < 32,
                other != bit,
        ;
    }
    after
}

/// What the emulator is told of a button: 1 if it is down, else 0.
pub fn button_state(buttons: u32, id: u32) -> (state: i16)
    requires
        id < 32,
    ensures
        state == if is_down(buttons, id) {
            1i16
        } else {
            0
        },
{
    if (buttons >> id) & 1 == 1 {
        1
    } else {
        0
    }
}

/// Every button has a bit of its own.
pub proof fn law_buttons_have_own_bits(a: Seq<char>, b: Seq<char>)
    requires
        button_bit(a) is Some,
        button_bit(a) == button_bit(b),
    ensures
        a == b,
        button_bit(a)->0 < 12,
{
}

/// What is done for a request.
#[derive(Debug)]
pub enum WorkerAction {
    /// The answer is known at once.
    Reply(WorkerResponseV1),
    /// The number of the current frame is told.
    TellFrame,
    /// The input state is replaced.
    SetInput { buttons: u32 },
    /// A button goes down, and up again after a while.
    Press { bit: u32, hold_ms: u64 },
    /// The latest picture is told.
    TellPicture,
    /// The emulator is asked.
    AskCore(CoreCommand),
    /// The worker ends once it has answered.
    Shutdown,
}

/// How long a button is held for a number of frames, in milliseconds.
pub open spec fn hold_time(frames: u32) -> int {
    frames * 1000 / 60
}

/// A hold of `frames` frames lasts as many sixtieths of a second, to the millisecond; each frame
/// more makes it 16 or 17 milliseconds longer.
pub proof fn law_hold_lasts_its_frames(frames: u32)
    ensures
        60 * hold_time(frames) <= 1000 * frames < 60 * (hold_time(frames) + 1),
        frames < u32::MAX ==> 16 <= hold_time((frames + 1) as u32) - hold_time(frames) <= 17,
{
}

fn press_for(button: &str, hold_ms: u64) -> (action: WorkerAction)
    ensures
        match button_bit(button@) {
            Some(bit) => action == (WorkerAction::Press { bit, hold_ms }),
            None => action == WorkerAction::Reply(WorkerResponseV1::Done),
        },
{
    match button_to_bit(button) {
        Some(bit) => WorkerAction::Press { bit, hold_ms },
        None => WorkerAction::Reply(WorkerResponseV1::Done),
    }
}

/// What is done for a request. A button that does not exist is passed over.
pub fn plan_request(command: WorkerCommand) -> (action: WorkerAction)
    ensures
        match command {
            WorkerCommand::V1(c) => match c {
                WorkerCommandV1::Ping => action == WorkerAction::Reply(WorkerResponseV1::Pong),
                WorkerCommandV1::GetCurrentFrame => action == WorkerAction::TellFrame,
                WorkerCommandV1::SetInputState { buttons } => action == (WorkerAction::SetInput {
                    buttons,
                }),
                WorkerCommandV1::ButtonTap { button } => match button_bit(button@) {
                    Some(bit) => action == (WorkerAction::Press { bit, hold_ms: 50 }),
                    None => action == WorkerAction::Reply(WorkerResponseV1::Done),
                },
                WorkerCommandV1::ButtonHold { button, duration_frames } => match button_bit(
                    button@,
                ) {
                    Some(bit) => action == (WorkerAction::Press {
                        bit,
                        hold_ms: hold_time(duration_frames) as u64,
                    }),
                    None => action == WorkerAction::Reply(WorkerResponseV1::Done),
                },
                WorkerCommandV1::Reset => action == WorkerAction::AskCore(CoreCommand::Reset),
                WorkerCommandV1::Shutdown => action == WorkerAction::Shutdown,
                WorkerCommandV1::TakeScreenshot => action == WorkerAction::TellPicture,
                WorkerCommandV1::LoadRom { path } => action == WorkerAction::AskCore(
                    CoreCommand::LoadRom { path },
                ),
                WorkerCommandV1::ReadMemory { address, size } => action == WorkerAction::AskCore(
                    CoreCommand::ReadMemory { address, size },
                ),
                WorkerCommandV1::WriteMemory { address, data } => action == WorkerAction::AskCore(
                    CoreCommand::WriteMemory { address, data },
                ),
                WorkerCommandV1::SaveState { slot } => action == WorkerAction::AskCore(
                    CoreCommand::SaveState { slot },
                ),
                WorkerCommandV1::LoadState { slot } => action == WorkerAction::AskCore(
                    CoreCommand::LoadState { slot },
                ),
            },
        },
        command matches WorkerCommand::V1(WorkerCommandV1::ButtonHold { duration_frames, .. }) ==> (
        action matches WorkerAction::Press { hold_ms, .. } ==> 60 * hold_ms <= 1000
            * duration_frames < 60 * (hold_ms + 1)),
        command matches WorkerCommand::V1(WorkerCommandV1::ButtonTap { .. }) ==> (
        action matches WorkerAction::Press { hold_ms, .. } ==> hold_ms == 50),
{
    let WorkerCommand::V1(command) = command;
    match command {
        WorkerCommandV1::Ping => WorkerAction::Reply(WorkerResponseV1::Pong),
        WorkerCommandV1::GetCurrentFrame => WorkerAction::TellFrame,
        WorkerCommandV1::SetInputState { buttons } => WorkerAction::SetInput { buttons },
        WorkerCommandV1::ButtonTap { button } => press_for(&button, TAP_MS),
        WorkerCommandV1::ButtonHold { button, duration_frames } => {
            let hold_ms: u64 = duration_frames as u64 * 1000 / 60;
            press_for(&button, hold_ms)
        },
        WorkerCommandV1::Reset => WorkerAction::AskCore(CoreCommand::Reset),
        WorkerCommandV1::Shutdown => WorkerAction::Shutdown,
        WorkerCommandV1::TakeScreenshot => WorkerAction::TellPicture,
        WorkerCommandV1::LoadRom { path } => WorkerAction::AskCore(CoreCommand::LoadRom { path }),
        WorkerCommandV1::ReadMemory { address, size } => WorkerAction::AskCore(
            CoreCommand::ReadMemory { address, size },
        ),
        WorkerCommandV1::WriteMemory { address, data } => WorkerAction::AskCore(
            CoreCommand::WriteMemory { address, data },
        ),
        WorkerCommandV1::SaveState { slot } => WorkerAction::AskCore(
            CoreCommand::SaveState { slot },
        ),
        WorkerCommandV1::LoadState { slot } => WorkerAction::AskCore(
            CoreCommand::LoadState { slot },
        ),
    }
}

/// What is told of the latest picture.
pub open spec fn picture_told(latest: Option<&WorkerFrame>) -> ResponseView {
    match latest {
        Some(frame) => ResponseView::Frame {
            width: frame.width,
            height: frame.height,
            pitch: (frame.pitch as int % 0x1_0000_0000) as u32,
            pixel_format: PixelFormat::XRGB8888,
            data: frame.data@,
        },
        None => ResponseView::Error { message: "no frame captured yet"@ },
    }
}

/// The answer to a request for the latest picture.
pub fn picture_response(latest: Option<&WorkerFrame>) -> (response: WorkerResponseV1)
    ensures
        response@ == picture_told(latest),
{
    match latest {
        Some(frame) => WorkerResponseV1::Frame {
            width: frame.width,
            height: frame.height,
            pitch: crate::wire::len_low32(frame.pitch),
            pixel_format: PixelFormat::XRGB8888,
            data: frame.data.clone(),
        },
        None => WorkerResponseV1::Error { message: "no frame captured yet".to_owned() },
    }
}

/// Where the answer to a request comes from.
#[derive(Debug)]
pub enum WorkerAnswer {
    /// The answer itself.
    Ready(WorkerResponseV1),
    /// The emulator gives it.
    FromCore(CoreCommand),
}

/// The answer to a request, once its action is done: the number of the current frame and the latest
/// picture are those at that time.
pub fn action_answer(
    action: WorkerAction,
    frame_number: u64,
    latest: Option<&WorkerFrame>,
) -> (answer: WorkerAnswer)
    ensures
        match action {
            WorkerAction::Reply(response) => answer == WorkerAnswer::Ready(response),
            WorkerAction::TellFrame => answer == WorkerAnswer::Ready(
                WorkerResponseV1::CurrentFrame { frame_number },
            ),
            WorkerAction::SetInput { .. }
            | WorkerAction::Press { .. }
            | WorkerAction::Shutdown => answer == WorkerAnswer::Ready(WorkerResponseV1::Done),
            WorkerAction::TellPicture => answer is Ready && answer->Ready_0@ == picture_told(
                latest,
            ),
            WorkerAction::AskCore(command) => answer == WorkerAnswer::FromCore(command),
        },
{
    match action {
        WorkerAction::Reply(response) => WorkerAnswer::Ready(response),
        WorkerAction::TellFrame => WorkerAnswer::Ready(
            WorkerResponseV1::CurrentFrame { frame_number },
        ),
        WorkerAction::SetInput { .. } | WorkerAction::Press { .. } | WorkerAction::Shutdown => {
            WorkerAnswer::Ready(WorkerResponseV1::Done)
        },
        WorkerAction::TellPicture => WorkerAnswer::Ready(picture_response(latest)),
        WorkerAction::AskCore(command) => WorkerAnswer::FromCore(command),
    }
}

/// The packet in which the latest picture goes to the gateway: none where the pitch is too large for
/// its field.
pub fn frame_packet(frame: &WorkerFrame) -> (packet: Option<RawFramePacket>)
    ensures
        match packet {
            Some(p) => frame.pitch <= u32::MAX && p.width == frame.width && p.height == frame.height
                && p.pitch == frame.pitch && p.pixel_format == 0 && p.data@ == frame.data@,
            None => frame.pitch > u32::MAX,
        },
{
    if frame.pitch as u64 > u32::MAX as u64 {
        return None;
    }
    Some(
        RawFramePacket {
            width: frame.width,
            height: frame.height,
            pitch: frame.pitch as u32,
            pixel_format: 0,
            data: frame.data.clone(),
        },
    )
}

/// How waiting for the emulator ended.
#[derive(Debug)]
pub enum CoreOutcome {
    /// The emulator answered.
    Answered(WorkerResponseV1),
    /// The emulator is gone.
    Unavailable,
    /// The emulator took too long, with the reason in words.
    TimedOut(String),
    /// Waiting itself failed, with the reason in words.
    WaitFailed(String),
}

/// The answer to a request that the emulator was asked for.
pub fn core_response(outcome: CoreOutcome) -> (response: WorkerResponseV1)
    ensures
        response@ == match outcome {
            CoreOutcome::Answered(r) => r@,
            CoreOutcome::Unavailable => ResponseView::Error {
                message: "emulator thread is unavailable"@,
            },
            CoreOutcome::TimedOut(why) => ResponseView::Error {
                message: "emulator command timed out: "@ + why@,
            },
            CoreOutcome::WaitFailed(why) => ResponseView::Error {
                message: "emulator command wait failed: "@ + why@,
            },
        },
{
    match outcome {
        CoreOutcome::Answered(response) => response,
        CoreOutcome::Unavailable => WorkerResponseV1::Error {
            message: "emulator thread is unavailable".to_owned(),
        },
        CoreOutcome::TimedOut(why) => WorkerResponseV1::Error {
            message: join2("emulator command timed out: ", &why),
        },
        CoreOutcome::WaitFailed(why) => WorkerResponseV1::Error {
            message: join2("emulator command wait failed: ", &why),
        },
    }
}

/// The buttons are numbered from 0 in the order B, Y, Select, Start, Up, Down, Left, Right, A, X, L
/// and R, and nothing else is a button.
pub proof fn law_buttons_are_numbered(button: Seq<char>, n: u32)
    ensures
        ({
            let names = seq![
                "B"@,
                "Y"@,
                "Select"@,
                "Start"@,
                "Up"@,
                "Down"@,
                "Left"@,
                "Right"@,
                "A"@,
                "X"@,
                "L"@,
                "R"@,
            ];
            button_bit(button) == Some(n) <==> n < 12 && names[n as int] == button
        }),
{
    reveal_strlit("A");
    reveal_strlit("B");
    reveal_strlit("L");
    reveal_strlit("R");
    reveal_strlit("X");
    reveal_strlit("Y");
    reveal_strlit("Start");
    reveal_strlit("Select");
    reveal_strlit("Up");
    reveal_strlit("Down");
    reveal_strlit("Left");
    reveal_strlit("Right");
    assert("A"@[0] == 'A' && "B"@[0] == 'B' && "L"@[0] == 'L' && "R"@[0] == 'R' && "X"@[0] == 'X'
        && "Y"@[0] == 'Y');
    assert("Start"@[0] == 'S' && "Start"@.len() == 5 && "Select"@.len() == 6 && "Up"@.len() == 2);
    assert("Down"@[0] == 'D' && "Down"@.len() == 4 && "Left"@[0] == 'L' && "Left"@.len() == 4);
    assert("Right"@[0] == 'R' && "Right"@.len() == 5);
    assert("A"@.len() == 1 && "B"@.len() == 1 && "L"@.len() == 1 && "R"@.len() == 1 && "X"@.len()
        == 1 && "Y"@.len() == 1);
}

/// A button is down where its bit is set and no other bit matters.
pub proof fn law_buttons_are_bits(bit: u32, other: u32)
    requires
        bit < 32,
        other < 32,
    ensures
        is_down(1u32 << bit, other) <==> bit == other,
        !is_down(0, bit),
{
    assert(((1u32 << bit) >> other) & 1 == 1 <==> bit == other) by (bit_vector)
        requires
            bit < 32,
            other < 32,
    ;
    assert((0u32 >> bit) & 1 != 1) by (bit_vector)
        requires
            bit < 32,
    ;
}

/// The latest picture is told as it is.
pub proof fn law_picture_is_told(frame: &WorkerFrame)
    ensures
        picture_told(Some(frame)) is Frame,
        picture_told(Some(frame))->Frame_width == frame.width,
        picture_told(Some(frame))->Frame_height == frame.height,
        picture_told(Some(frame))->Frame_pitch == frame.pitch as int % 4_294_967_296,
        picture_told(Some(frame))->Frame_pixel_format == PixelFormat::XRGB8888,
        picture_told(Some(frame))->Frame_data == frame.data@,
        picture_told(None) == (ResponseView::Error { message: "no frame captured yet"@ }),
{
}

} // verus!
