//! What the gateway and its workers say to each other.
use vstd::prelude::*;

pub mod transport;

verus! {

/// How the pixels of a picture are stored.
#[derive(Debug, Clone, Copy, PartialEq, Eq, Structural)]
pub enum PixelFormat {
    XRGB8888,
    RGB565,
}

/// A request to a worker.
#[derive(Debug, PartialEq)]
pub enum WorkerCommand {
    V1(WorkerCommandV1),
}

/// The requests of the first version.
#[derive(Debug, PartialEq)]
pub enum WorkerCommandV1 {
    Ping,
    LoadRom { path: String },
    SetInputState { buttons: u32 },
    ReadMemory { address: u32, size: u32 },
    WriteMemory { address: u32, data: Vec<u8> },
    SaveState { slot: u8 },
    LoadState { slot: u8 },
    Reset,
    Shutdown,
    GetCurrentFrame,
    ButtonTap { button: String },
    ButtonHold { button: String, duration_frames: u32 },
    TakeScreenshot,
}

/// A worker's answer.
#[derive(Debug, PartialEq)]
pub enum WorkerResponse {
    V1(WorkerResponseV1),
}

/// The answers of the first version.
#[derive(Debug, PartialEq)]
pub enum WorkerResponseV1 {
    Pong,
    Frame { width: u32, height: u32, pitch: u32, pixel_format: PixelFormat, data: Vec<u8> },
    MemoryData { data: Vec<u8> },
    StateData { data: Vec<u8> },
    CurrentFrame { frame_number: u64 },
    Screenshot { png_data: Vec<u8> },
    /// Done, with nothing to tell.
    Done,
    Error { message: String },
}

/// A request with its texts and bytes as sequences.
pub ghost enum CommandView {
    Ping,
    LoadRom { path: Seq<char> },
    SetInputState { buttons: u32 },
    ReadMemory { address: u32, size: u32 },
    WriteMemory { address: u32, data: Seq<u8> },
    SaveState { slot: u8 },
    LoadState { slot: u8 },
    Reset,
    Shutdown,
    GetCurrentFrame,
    ButtonTap { button: Seq<char> },
    ButtonHold { button: Seq<char>, duration_frames: u32 },
    TakeScreenshot,
}

/// An answer with its texts and bytes as sequences.
pub ghost enum ResponseView {
    Pong,
    Frame { width: u32, height: u32, pitch: u32, pixel_format: PixelFormat, data: Seq<u8> },
    MemoryData { data: Seq<u8> },
    StateData { data: Seq<u8> },
    CurrentFrame { frame_number: u64 },
    Screenshot { png_data: Seq<u8> },
    /// Done, with nothing to tell.
    Done,
    Error { message: Seq<char> },
}

impl View for WorkerCommandV1 {
    type V = CommandView;

    open spec fn view(&self) -> CommandView {
        match *self {
            WorkerCommandV1::Ping => CommandView::Ping,
            WorkerCommandV1::LoadRom { path } => CommandView::LoadRom { path: path@ },
            WorkerCommandV1::SetInputState { buttons } => CommandView::SetInputState { buttons },
            WorkerCommandV1::ReadMemory { address, size } => CommandView::ReadMemory {
                address,
                size,
            },
            WorkerCommandV1::WriteMemory { address, data } => CommandView::WriteMemory {
                address,
                data: data@,
            },
            WorkerCommandV1::SaveState { slot } => CommandView::SaveState { slot },
            WorkerCommandV1::LoadState { slot } => CommandView::LoadState { slot },
            WorkerCommandV1::Reset => CommandView::Reset,
            WorkerCommandV1::Shutdown => CommandView::Shutdown,
            WorkerCommandV1::GetCurrentFrame => CommandView::GetCurrentFrame,
            WorkerCommandV1::ButtonTap { button } => CommandView::ButtonTap { button: button@ },
            WorkerCommandV1::ButtonHold { button, duration_frames } => CommandView::ButtonHold {
                button: button@,
                duration_frames,
            },
            WorkerCommandV1::TakeScreenshot => CommandView::TakeScreenshot,
        }
    }
}

impl View for WorkerCommand {
    type V = CommandView;

    open spec fn view(&self) -> CommandView {
        match *self {
            WorkerCommand::V1(command) => command@,
        }
    }
}

impl View for WorkerResponseV1 {
    type V = ResponseView;

    open spec fn view(&self) -> ResponseView {
        match *self {
            WorkerResponseV1::Pong => ResponseView::Pong,
            WorkerResponseV1::Frame { width, height, pitch, pixel_format, data } =>
                ResponseView::Frame {
                width,
                height,
                pitch,
                pixel_format,
                data: data@,
            },
            WorkerResponseV1::MemoryData { data } => ResponseView::MemoryData { data: data@ },
            WorkerResponseV1::StateData { data } => ResponseView::StateData { data: data@ },
            WorkerResponseV1::CurrentFrame { frame_number } => ResponseView::CurrentFrame {
                frame_number,
            },
            WorkerResponseV1::Screenshot { png_data } => ResponseView::Screenshot {
                png_data: png_data@,
            },
            WorkerResponseV1::Done => ResponseView::Done,
            WorkerResponseV1::Error { message } => ResponseView::Error { message: message@ },
        }
    }
}

impl View for WorkerResponse {
    type V = ResponseView;

    open spec fn view(&self) -> ResponseView {
        match *self {
            WorkerResponse::V1(response) => response@,
        }
    }
}

/// A command is told by what it holds.
pub proof fn law_commands_hold_what_they_hold(command: WorkerCommandV1)
    ensures
        match command {
            WorkerCommandV1::LoadRom { path } => command@ is LoadRom && command@->path == path@,
            WorkerCommandV1::SetInputState { buttons } => command@ is SetInputState
                && command@->buttons == buttons,
            WorkerCommandV1::ReadMemory { address, size } => command@ is ReadMemory
                && command@->ReadMemory_address == address && command@->size == size,
            WorkerCommandV1::WriteMemory { address, data } => command@ is WriteMemory
                && command@->WriteMemory_address == address && command@->data == data@,
            WorkerCommandV1::SaveState { slot } => command@ is SaveState
                && command@->SaveState_slot == slot,
            WorkerCommandV1::LoadState { slot } => command@ is LoadState
                && command@->LoadState_slot == slot,
            WorkerCommandV1::ButtonTap { button } => command@ is ButtonTap
                && command@->ButtonTap_button == button@,
            WorkerCommandV1::ButtonHold { button, duration_frames } => command@ is ButtonHold
                && command@->ButtonHold_button == button@ && command@->duration_frames
                == duration_frames,
            WorkerCommandV1::Ping => command@ is Ping,
            WorkerCommandV1::Reset => command@ is Reset,
            WorkerCommandV1::Shutdown => command@ is Shutdown,
            WorkerCommandV1::GetCurrentFrame => command@ is GetCurrentFrame,
            WorkerCommandV1::TakeScreenshot => command@ is TakeScreenshot,
        },
{
}

/// An answer is told by what it holds.
pub proof fn law_answers_hold_what_they_hold(response: WorkerResponseV1)
    ensures
        match response {
            WorkerResponseV1::Pong => response@ is Pong,
            WorkerResponseV1::Frame { width, height, pitch, pixel_format, data } => response@
                is Frame && response@->width == width && response@->height == height
                && response@->pitch == pitch && response@->pixel_format == pixel_format
                && response@->Frame_data == data@,
            WorkerResponseV1::MemoryData { data } => response@ is MemoryData
                && response@->MemoryData_data == data@,
            WorkerResponseV1::StateData { data } => response@ is StateData
                && response@->StateData_data == data@,
            WorkerResponseV1::CurrentFrame { frame_number } => response@ is CurrentFrame
                && response@->frame_number == frame_number,
            WorkerResponseV1::Screenshot { png_data } => response@ is Screenshot
                && response@->png_data == png_data@,
            WorkerResponseV1::Done => response@ is Done,
            WorkerResponseV1::Error { message } => response@ is Error && response@->message
                == message@,
        },
{
}

} // verus!
