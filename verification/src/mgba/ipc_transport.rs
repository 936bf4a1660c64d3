//! Text messages as requests to a worker, and its answers as text.
use crate::ipc::{
    CommandView, ResponseView, WorkerCommand, WorkerCommandV1, WorkerResponse, WorkerResponseV1,
};
use crate::mgba::protocol::{SUCCESS_MARKER, TERMINATION_MARKER};
use crate::mgba::scheduler::SchedulerError;
use crate::numbers::{
    decimal, decimal_of, digit_value, digits_value, hex_bytes, hex_of, law_decimal_read_back,
    lemma_decimal, lemma_digits_are_parsed, parse_number, parsed_number,
};
use crate::text::{
    chars_between, chars_of, ends_with, has_end, join2, split, split_at_each, text_eq, views,
};
use vstd::prelude::*;

verus! {

/// How long a button is held where a message does not say so, in frames.
pub const DEFAULT_HOLD_FRAMES: u32 = 15;

/// How long a worker may take to answer, in milliseconds.
pub const CALL_TIMEOUT_MS: u64 = 5000;

/// The number that an address is written as: hexadecimal behind `0x` or `0X`, else decimal.
pub open spec fn address(s: Seq<char>) -> Option<u32> {
    let n = if s.len() >= 2 && s[0] == '0' && (s[1] == 'x' || s[1] == 'X') {
        parsed_number(s.skip(2), 16, u32::MAX as int)
    } else {
        parsed_number(s, 10, u32::MAX as int)
    };
    match n {
        Ok(n) => Some(n as u32),
        Err(_) => None,
    }
}

/// The decimal number up to `max` that a field is written as.
pub open spec fn number_in(fields: Seq<Seq<char>>, i: int, max: int) -> Option<int> {
    if i < fields.len() {
        match parsed_number(fields[i], 10, max) {
            Ok(n) => Some(n),
            Err(_) => None,
        }
    } else {
        None
    }
}

/// The address that a field is written as.
pub open spec fn address_in(fields: Seq<Seq<char>>, i: int) -> Option<u32> {
    if i < fields.len() {
        address(fields[i])
    } else {
        None
    }
}

/// The low 16 bits of a number, least significant byte first.
pub open spec fn le16(n: u32) -> Seq<u8> {
    seq![(n % 0x100) as u8, (n / 0x100 % 0x100) as u8]
}

/// A number, least significant byte first.
pub open spec fn le32(n: u32) -> Seq<u8> {
    seq![
        (n % 0x100) as u8,
        (n / 0x100 % 0x100) as u8,
        (n / 0x1_0000 % 0x100) as u8,
        (n / 0x100_0000) as u8,
    ]
}

/// A read of `size` bytes from the address in the first argument.
pub open spec fn read_request(fields: Seq<Seq<char>>, size: Option<int>) -> Option<CommandView> {
    match (address_in(fields, 1), size) {
        (Some(address), Some(size)) => Some(CommandView::ReadMemory { address, size: size as u32 }),
        _ => None,
    }
}

/// A write of the second argument, as bytes, to the address in the first.
pub open spec fn write_request(fields: Seq<Seq<char>>, bytes: spec_fn(u32) -> Seq<u8>) -> Option<
    CommandView,
> {
    match (address_in(fields, 1), address_in(fields, 2)) {
        (Some(address), Some(value)) => Some(
            CommandView::WriteMemory { address, data: bytes(value) },
        ),
        _ => None,
    }
}

/// The request that the fields of a message stand for. Arguments that are not needed are passed over.
pub open spec fn request_of(fields: Seq<Seq<char>>) -> Option<CommandView> {
    let name = fields[0];
    if name == "core.read8"@ {
        read_request(fields, Some(1))
    } else if name == "core.read16"@ {
        read_request(fields, Some(2))
    } else if name == "core.readRange"@ {
        read_request(fields, number_in(fields, 2, u32::MAX as int))
    } else if name == "core.write8"@ {
        write_request(fields, |n: u32| seq![(n % 0x100) as u8])
    } else if name == "core.write16"@ {
        write_request(fields, |n: u32| le16(n))
    } else if name == "core.write32"@ {
        write_request(fields, |n: u32| le32(n))
    } else if name == "core.currentFrame"@ {
        Some(CommandView::GetCurrentFrame)
    } else if name == "core.screenshot"@ {
        Some(CommandView::TakeScreenshot)
    } else if name == "core.saveStateSlot"@ {
        match number_in(fields, 1, u8::MAX as int) {
            Some(slot) => Some(CommandView::SaveState { slot: slot as u8 }),
            None => None,
        }
    } else if name == "core.loadStateSlot"@ {
        match number_in(fields, 1, u8::MAX as int) {
            Some(slot) => Some(CommandView::LoadState { slot: slot as u8 }),
            None => None,
        }
    } else if name == "core.reset"@ || name == "restart"@ {
        Some(CommandView::Reset)
    } else if name == "mgba-http.button.tap"@ {
        if fields.len() > 1 {
            Some(CommandView::ButtonTap { button: fields[1] })
        } else {
            None
        }
    } else if name == "mgba-http.button.hold"@ {
        if fields.len() > 1 {
            Some(
                CommandView::ButtonHold {
                    button: fields[1],
                    duration_frames: match number_in(fields, 2, u32::MAX as int) {
                        Some(n) => n as u32,
                        None => DEFAULT_HOLD_FRAMES,
                    },
                },
            )
        } else {
            None
        }
    } else if name == "health"@ {
        Some(CommandView::Ping)
    } else {
        None
    }
}

/// The request that a message stands for. A message must end with the marker.
pub open spec fn message_request(message: Seq<char>) -> Option<CommandView> {
    if ends_with(message, TERMINATION_MARKER@) {
        request_of(split(message.take(message.len() - TERMINATION_MARKER@.len()), ','))
    } else {
        None
    }
}

/// Reads an address.
pub fn parse_address(s: &str) -> (res: Option<u32>)
    ensures
        res == address(s@),
{
    let chars = chars_of(s);
    let parsed = if chars.len() >= 2 && chars[0] == '0' && (chars[1] == 'x' || chars[1] == 'X') {
        let digits = chars_between(&chars, 2, chars.len());
        assert(digits@ =~= s@.skip(2));
        parse_number(&digits, 16, u32::MAX as u64)
    } else {
        parse_number(&chars, 10, u32::MAX as u64)
    };
    match parsed {
        Ok(n) => Some(n as u32),
        Err(_) => None,
    }
}

fn number_field(fields: &Vec<String>, i: usize, max: u64) -> (res: Option<u64>)
    ensures
        match res {
            Some(n) => number_in(views(fields@), i as int, max as int) == Some(n as int) && n
                <= max,
            None => number_in(views(fields@), i as int, max as int) is None,
        },
{
    if i >= fields.len() {
        return None;
    }
    let chars = chars_of(&fields[i]);
    match parse_number(&chars, 10, max) {
        Ok(n) => Some(n),
        Err(_) => None,
    }
}

fn address_field(fields: &Vec<String>, i: usize) -> (res: Option<u32>)
    ensures
        res == address_in(views(fields@), i as int),
{
    if i >= fields.len() {
        return None;
    }
    parse_address(&fields[i])
}

fn read_command(fields: &Vec<String>, size: Option<u64>) -> (res: Option<WorkerCommandV1>)
    requires
        size matches Some(n) ==> n <= u32::MAX,
    ensures
        ({
            let wanted = read_request(
                views(fields@),
                match size {
                    Some(n) => Some(n as int),
                    None => None,
                },
            );
            match res {
                Some(c) => wanted == Some(c@),
                None => wanted is None,
            }
        }),
{
    match (address_field(fields, 1), size) {
        (Some(address), Some(size)) => Some(
            WorkerCommandV1::ReadMemory { address, size: size as u32 },
        ),
        _ => None,
    }
}

fn write_fields(fields: &Vec<String>) -> (res: Option<(u32, u32)>)
    ensures
        res == match (address_in(views(fields@), 1), address_in(views(fields@), 2)) {
            (Some(address), Some(value)) => Some((address, value)),
            _ => None,
        },
{
    match (address_field(fields, 1), address_field(fields, 2)) {
        (Some(address), Some(value)) => Some((address, value)),
        _ => None,
    }
}

fn command_of(fields: &Vec<String>) -> (res: Option<WorkerCommandV1>)
    requires
        fields@.len() > 0,
    ensures
        match res {
            Some(c) => request_of(views(fields@)) == Some(c@),
            None => request_of(views(fields@)) is None,
        },
{
    let name = fields[0].as_str();
    let ghost seen = views(fields@);
    assert(seen[0] == name@);
    if text_eq(name, "core.read8") {
        read_command(fields, Some(1))
    } else if text_eq(name, "core.read16") {
        read_command(fields, Some(2))
    } else if text_eq(name, "core.readRange") {
        read_command(fields, number_field(fields, 2, u32::MAX as u64))
    } else if text_eq(name, "core.write8") {
        match write_fields(fields) {
            Some((address, value)) => {
                let mut data: Vec<u8> = Vec::new();
                data.push((value % 0x100) as u8);
                assert(data@ =~= seq![(value % 0x100) as u8]);
                Some(WorkerCommandV1::WriteMemory { address, data })
            },
            None => None,
        }
    } else if text_eq(name, "core.write16") {
        match write_fields(fields) {
            Some((address, value)) => {
                let mut data: Vec<u8> = Vec::new();
                data.push((value % 0x100) as u8);
                data.push((value / 0x100 % 0x100) as u8);
                assert(data@ =~= le16(value));
                Some(WorkerCommandV1::WriteMemory { address, data })
            },
            None => None,
        }
    } else if text_eq(name, "core.write32") {
        match write_fields(fields) {
            Some((address, value)) => {
                let mut data: Vec<u8> = Vec::new();
                data.push((value % 0x100) as u8);
                data.push((value / 0x100 % 0x100) as u8);
                data.push((value / 0x1_0000 % 0x100) as u8);
                data.push((value / 0x100_0000) as u8);
                assert(data@ =~= le32(value));
                Some(WorkerCommandV1::WriteMemory { address, data })
            },
            None => None,
        }
    } else if text_eq(name, "core.currentFrame") {
        Some(WorkerCommandV1::GetCurrentFrame)
    } else if text_eq(name, "core.screenshot") {
        Some(WorkerCommandV1::TakeScreenshot)
    } else if text_eq(name, "core.saveStateSlot") {
        match number_field(fields, 1, u8::MAX as u64) {
            Some(slot) => Some(WorkerCommandV1::SaveState { slot: slot as u8 }),
            None => None,
        }
    } else if text_eq(name, "core.loadStateSlot") {
        match number_field(fields, 1, u8::MAX as u64) {
            Some(slot) => Some(WorkerCommandV1::LoadState { slot: slot as u8 }),
            None => None,
        }
    } else if text_eq(name, "core.reset") || text_eq(name, "restart") {
        Some(WorkerCommandV1::Reset)
    } else if text_eq(name, "mgba-http.button.tap") {
        if fields.len() > 1 {
            Some(WorkerCommandV1::ButtonTap { button: fields[1].clone() })
        } else {
            None
        }
    } else if text_eq(name, "mgba-http.button.hold") {
        if fields.len() > 1 {
            let duration_frames: u32 = match number_field(fields, 2, u32::MAX as u64) {
                Some(n) => n as u32,
                None => DEFAULT_HOLD_FRAMES,
            };
            Some(WorkerCommandV1::ButtonHold { button: fields[1].clone(), duration_frames })
        } else {
            None
        }
    } else if text_eq(name, "health") {
        Some(WorkerCommandV1::Ping)
    } else {
        None
    }
}

/// Reads a message as a request to a worker.
pub fn parse_message_to_command(message: &str) -> (res: Option<WorkerCommand>)
    ensures
        match res {
            Some(c) => message_request(message@) == Some(c@),
            None => message_request(message@) is None,
        },
{
    let chars = chars_of(message);
    let marker = chars_of(TERMINATION_MARKER);
    if !has_end(&chars, &marker) {
        return None;
    }
    let body = chars_between(&chars, 0, chars.len() - marker.len());
    assert(body@ =~= message@.take(message@.len() - TERMINATION_MARKER@.len()));
    let fields = split_at_each(&body, ',');
    match command_of(&fields) {
        Some(command) => Some(WorkerCommand::V1(command)),
        None => None,
    }
}

/// The text of an answer: a value, or `ok`, and the marker of success; an error has its text.
pub open spec fn response_text(response: ResponseView) -> Seq<char> {
    match response {
        ResponseView::Pong => "pong"@ + SUCCESS_MARKER@,
        ResponseView::MemoryData { data } => if data.len() == 1 {
            decimal(data[0] as int) + SUCCESS_MARKER@
        } else if data.len() == 2 {
            decimal(data[0] + data[1] * 0x100) + SUCCESS_MARKER@
        } else {
            hex_bytes(data) + SUCCESS_MARKER@
        },
        ResponseView::CurrentFrame { frame_number } => decimal(frame_number as int)
            + SUCCESS_MARKER@,
        ResponseView::Error { message } => "error:"@ + message,
        _ => "ok"@ + SUCCESS_MARKER@,
    }
}

/// Writes an answer as text.
pub fn response_to_string(response: WorkerResponse) -> (text: String)
    ensures
        text@ == response_text(response@),
{
    let WorkerResponse::V1(response) = response;
    match response {
        WorkerResponseV1::Pong => join2("pong", SUCCESS_MARKER),
        WorkerResponseV1::MemoryData { data } => {
            if data.len() == 1 {
                join2(&decimal_of(data[0] as u64), SUCCESS_MARKER)
            } else if data.len() == 2 {
                join2(&decimal_of(data[0] as u64 + data[1] as u64 * 0x100), SUCCESS_MARKER)
            } else {
                join2(&hex_of(&data), SUCCESS_MARKER)
            }
        },
        WorkerResponseV1::CurrentFrame { frame_number } => join2(
            &decimal_of(frame_number),
            SUCCESS_MARKER,
        ),
        WorkerResponseV1::Error { message } => join2("error:", &message),
        _ => join2("ok", SUCCESS_MARKER),
    }
}

/// The request that is sent for a message. One that cannot be read is an error.
pub fn plan_call(message: &str) -> (res: Result<WorkerCommand, SchedulerError>)
    ensures
        match message_request(message@) {
            Some(request) => res matches Ok(c) && c@ == request,
            None => res matches Err(SchedulerError::Transport(why)) && why@
                == "unknown command: "@ + message@,
        },
{
    match parse_message_to_command(message) {
        Some(command) => Ok(command),
        None => Err(SchedulerError::Transport(join2("unknown command: ", message))),
    }
}

/// How a call to a worker ended.
#[derive(Debug)]
pub enum CallOutcome {
    /// The worker answered.
    Answered(WorkerResponse),
    /// The connection failed.
    Failed(String),
    /// The worker took too long.
    TimedOut,
}

/// What a caller is told of a call.
pub fn finish_call(outcome: CallOutcome) -> (res: Result<String, SchedulerError>)
    ensures
        match outcome {
            CallOutcome::Answered(response) => res matches Ok(text) && text@ == response_text(
                response@,
            ),
            CallOutcome::Failed(why) => res == Err::<String, SchedulerError>(
                SchedulerError::Transport(why),
            ),
            CallOutcome::TimedOut => res == Err::<String, SchedulerError>(SchedulerError::Timeout),
        },
{
    match outcome {
        CallOutcome::Answered(response) => Ok(response_to_string(response)),
        CallOutcome::Failed(why) => Err(SchedulerError::Transport(why)),
        CallOutcome::TimedOut => Err(SchedulerError::Timeout),
    }
}

/// A number is written into memory with its low byte first.
pub proof fn law_low_byte_comes_first(n: u32)
    ensures
        le16(n).len() == 2,
        le16(n)[0] + 256 * le16(n)[1] == n % 65_536,
        le32(n).len() == 4,
        le32(n)[0] + 256 * le32(n)[1] + 65_536 * le32(n)[2] + 16_777_216 * le32(n)[3] == n,
{
    let q = n / 0x100;
    let r = q / 0x100;
    assert(n == 0x100 * q + n % 0x100);
    assert(q == 0x100 * r + q % 0x100);
    assert(n / 0x1_0000 == r);
    assert(r / 0x100 == n / 0x100_0000);
    assert(r == 0x100 * (r / 0x100) + r % 0x100);
}

/// What was read is told in decimal where it is one or two bytes, the low byte first, and in
/// hexadecimal otherwise; the number of a frame is told in decimal; all else is just told to be done.
/// What was done bears the mark of success, and what was not does not.
pub proof fn law_answers_in_words(response: ResponseView)
    ensures
        ({
            let text = response_text(response);
            let mark = "<|SUCCESS|>"@;
            match response {
                ResponseView::Pong => text == "pong"@ + mark,
                ResponseView::MemoryData { data } => {
                    &&& data.len() == 1 ==> text == decimal(data[0] as int) + mark
                    &&& data.len() == 2 ==> text == decimal(256 * data[1] + data[0]) + mark
                    &&& data.len() == 0 || data.len() > 2 ==> text == hex_bytes(data) + mark
                },
                ResponseView::CurrentFrame { frame_number } => text == decimal(frame_number as int)
                    + mark,
                ResponseView::Error { message } => text == "error:"@ + message,
                _ => text == "ok"@ + mark,
            }
        }),
{
}

/// Behind `0x` or `0X` an address is read as hexadecimal, and as decimal otherwise.
pub proof fn law_addresses_are_read(n: u32, digits: Seq<char>)
    requires
        digits.len() > 0,
        forall|i: int|
            0 <= i < digits.len() ==> ('0' <= #[trigger] digits[i] && digits[i] <= '9') || ('a'
                <= digits[i] && digits[i] <= 'f') || ('A' <= digits[i] && digits[i] <= 'F'),
    ensures
        address(decimal(n as int)) == Some(n),
        address(seq!['0', 'x'] + digits) == if digits_value(digits, 16) <= 0xffff_ffff {
            Some(digits_value(digits, 16) as u32)
        } else {
            None
        },
        address(seq!['0', 'X'] + digits) == address(seq!['0', 'x'] + digits),
{
    law_decimal_read_back(n as int, u32::MAX as int);
    lemma_decimal(n as int);
    let s = decimal(n as int);
    if s.len() >= 2 {
        assert(digit_value(s[1], 10) is Some);
    }
    assert((seq!['0', 'x'] + digits).skip(2) =~= digits);
    assert((seq!['0', 'X'] + digits).skip(2) =~= digits);
    assert forall|i: int| 0 <= i < digits.len() implies digit_value(#[trigger] digits[i], 16)
        is Some by {}
    lemma_digits_are_parsed(digits, 16, u32::MAX as int);
}

/// What a message of any name and with any fields behind it asks for.
pub proof fn law_names_ask_for_their_commands(fields: Seq<Seq<char>>)
    requires
        fields.len() > 0,
    ensures
        ({
            let name = fields[0];
            let asked = request_of(fields);
            &&& name == "health"@ ==> asked == Some(CommandView::Ping)
            &&& name == "core.currentFrame"@ ==> asked == Some(CommandView::GetCurrentFrame)
            &&& name == "core.screenshot"@ ==> asked == Some(CommandView::TakeScreenshot)
            &&& name == "core.reset"@ || name == "restart"@ ==> asked == Some(CommandView::Reset)
            &&& name == "mgba-http.button.tap"@ ==> asked == if fields.len() > 1 {
                Some(CommandView::ButtonTap { button: fields[1] })
            } else {
                None
            }
            &&& name == "mgba-http.button.hold"@ ==> (asked is Some <==> fields.len() > 1)
            &&& name == "mgba-http.button.hold"@ && fields.len() == 2 ==> asked == Some(
                CommandView::ButtonHold { button: fields[1], duration_frames: 15 },
            )
            &&& name == "core.read8"@ || name == "core.read16"@ ==> (asked is Some <==> fields.len()
                > 1 && address(fields[1]) is Some)
            &&& name == "core.write8"@ || name == "core.write16"@ || name == "core.write32"@ ==> (
            asked is Some <==> fields.len() > 2 && address(fields[1]) is Some && address(fields[2])
                is Some)
            &&& asked is Some ==> name == "health"@ || name == "core.currentFrame"@ || name
                == "core.screenshot"@ || name == "core.reset"@ || name == "restart"@ || name
                == "mgba-http.button.tap"@ || name == "mgba-http.button.hold"@ || name
                == "core.read8"@ || name == "core.read16"@ || name == "core.readRange"@ || name
                == "core.write8"@ || name == "core.write16"@ || name == "core.write32"@ || name
                == "core.saveStateSlot"@ || name == "core.loadStateSlot"@
        }),
{
    lemma_names_are_told_apart();
}

/// The numbers in a message are what is asked for: an address and a number of bytes, an address and
/// the bytes to be put there with the low byte first, a slot, or a number of frames. A number that
/// cannot be read, or is too large, asks for nothing, except that a button is held for 15 frames.
pub proof fn law_numbers_in_messages(fields: Seq<Seq<char>>)
    requires
        fields.len() > 2,
    ensures
        ({
            let name = fields[0];
            let asked = request_of(fields);
            let at = address(fields[1]);
            let value = address(fields[2]);
            let slot = parsed_number(fields[1], 10, 255);
            let count = parsed_number(fields[2], 10, 4_294_967_295);
            &&& name == "core.read8"@ && at is Some ==> asked == Some(
                CommandView::ReadMemory { address: at->0, size: 1 },
            )
            &&& name == "core.read16"@ && at is Some ==> asked == Some(
                CommandView::ReadMemory { address: at->0, size: 2 },
            )
            &&& name == "core.readRange"@ ==> asked == if at is Some && count is Ok {
                Some(CommandView::ReadMemory { address: at->0, size: count->Ok_0 as u32 })
            } else {
                None
            }
            &&& name == "core.write8"@ && at is Some && value is Some ==> (asked
                matches Some(CommandView::WriteMemory { address, data }) && address == at->0
                && data.len() == 1 && data[0] == value->0 % 256)
            &&& name == "core.write16"@ && at is Some && value is Some ==> (asked
                matches Some(CommandView::WriteMemory { address, data }) && address == at->0
                && data.len() == 2 && data[0] + 256 * data[1] == value->0 % 65_536)
            &&& name == "core.write32"@ && at is Some && value is Some ==> (asked
                matches Some(CommandView::WriteMemory { address, data }) && address == at->0
                && data.len() == 4 && data[0] + 256 * data[1] + 65_536 * data[2] + 16_777_216
                * data[3] == value->0)
            &&& name == "core.saveStateSlot"@ ==> asked == if slot is Ok {
                Some(CommandView::SaveState { slot: slot->Ok_0 as u8 })
            } else {
                None
            }
            &&& name == "core.loadStateSlot"@ ==> asked == if slot is Ok {
                Some(CommandView::LoadState { slot: slot->Ok_0 as u8 })
            } else {
                None
            }
            &&& name == "mgba-http.button.hold"@ ==> asked == Some(
                CommandView::ButtonHold {
                    button: fields[1],
                    duration_frames: if count is Ok {
                        count->Ok_0 as u32
                    } else {
                        15
                    },
                },
            )
        }),
{
    if let Some(value) = address(fields[2]) {
        law_low_byte_comes_first(value);
    }
    lemma_names_are_told_apart();
}

proof fn lemma_names_are_told_apart()
    ensures
        "core.read8"@.len() == 10 && "core.read8"@[7] == 'a',
        "core.reset"@.len() == 10 && "core.reset"@[7] == 's',
        "core.read16"@.len() == 11 && "core.read16"@[5] == 'r',
        "core.write8"@.len() == 11 && "core.write8"@[5] == 'w',
        "core.write16"@.len() == 12 && "core.write16"@[10] == '1',
        "core.write32"@.len() == 12 && "core.write32"@[10] == '3',
        "core.readRange"@.len() == 14,
        "core.screenshot"@.len() == 15,
        "core.currentFrame"@.len() == 17,
        "core.saveStateSlot"@.len() == 18 && "core.saveStateSlot"@[5] == 's',
        "core.loadStateSlot"@.len() == 18 && "core.loadStateSlot"@[5] == 'l',
        "mgba-http.button.tap"@.len() == 20,
        "mgba-http.button.hold"@.len() == 21,
        "restart"@.len() == 7,
        "health"@.len() == 6,
{
    reveal_strlit("core.read8");
    reveal_strlit("core.read16");
    reveal_strlit("core.readRange");
    reveal_strlit("core.write8");
    reveal_strlit("core.write16");
    reveal_strlit("core.write32");
    reveal_strlit("core.saveStateSlot");
    reveal_strlit("core.loadStateSlot");
    reveal_strlit("core.reset");
    reveal_strlit("core.currentFrame");
    reveal_strlit("core.screenshot");
    reveal_strlit("restart");
    reveal_strlit("health");
    reveal_strlit("mgba-http.button.tap");
    reveal_strlit("mgba-http.button.hold");
}

} // verus!
