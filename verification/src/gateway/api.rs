//! Requests to sessions.
use crate::auth::{
    AclService, AuthError, Permission, PrincipalId, Role, SessionId, role_allows, token_hash,
};
use crate::gateway::commands::{
    arg_value, button_command, button_name, command_fault, command_fields, decimal_arg,
    law_value_of_arguments, lemma_address, numeric_arg, objection, read_command, validate_command,
};
use crate::gateway::png::{
    law_pixels_are_whole_up_to_the_last, png_file, whole_pixels, xrgb8888_to_png,
};
use crate::ids::is_random_uuid;
use crate::ipc::CommandView;
use crate::mgba::ipc_transport::{
    CALL_TIMEOUT_MS, law_low_byte_comes_first, le16, le32, message_request, response_text,
};
use crate::mgba::protocol::{
    SUCCESS_MARKER, law_arguments_stay_apart, law_message_in_characters, message,
};
use crate::mgba::scheduler::{CommandKind, CommandResult};
use crate::numbers::{
    NumberError, decimal, digit_value, digits_value, lemma_digits_are_parsed, parsed_number,
};
use crate::streaming::broadcast::frame_rgba;
use crate::streaming::frame_hub::{FrameHub, PixelFormat, RawFrame};
use crate::streaming::input_log::{InputEvent, InputEventStatus, InputLogBus};
use crate::string_map::among;
use crate::text::{
    chars_between, chars_of, has_start, lacks, lemma_lacks, starts_with, string_of, text_less, views,
};
use crate::time::law_spans_are_whole_milliseconds;
use crate::worker::commands::{CORE_TIMEOUT_MS, button_bit};
use crate::worker::emulator::{
    law_written_memory_is_read_back, ram_offset, read_answer, written,
};
use vstd::prelude::*;

verus! {

/// How long a session may take for a command, in milliseconds.
pub const COMMAND_TIMEOUT_MS: u64 = 5000;

/// How long a button is held where a request does not say so, in frames.
pub const DEFAULT_HOLD: &'static str = "15";

/// What a request answers with.
#[derive(Debug)]
pub enum ReplyBody {
    /// What is wrong.
    Error(String),
    /// What a command gave.
    Command { response: String, request_id: String, latency_ms: i64 },
    /// A PNG file.
    Png(Vec<u8>),
    /// Done, with nothing to tell.
    Done,
}

/// The answer to a request, with its HTTP status.
#[derive(Debug)]
pub struct Reply {
    pub status: u16,
    pub body: ReplyBody,
}

impl Reply {
    /// Whether the answer is an error with the given status and text.
    pub open spec fn is_error(self, status: u16, text: Seq<char>) -> bool {
        self.status == status && (self.body matches ReplyBody::Error(why) && why@ == text)
    }
}

/// An answer that tells what is wrong.
pub fn error_reply(status: u16, why: &str) -> (reply: Reply)
    ensures
        reply.is_error(status, why@),
{
    Reply { status, body: ReplyBody::Error(why.to_owned()) }
}

/// A request to a session.
#[derive(Debug)]
pub enum SessionRequest {
    Read8 { address: String },
    Read16 { address: String },
    ReadRange { address: String, length: String },
    CurrentFrame,
    Write8 { address: String, value: String },
    Write16 { address: String, value: String },
    Write32 { address: String, value: String },
    SaveState { slot: String },
    LoadState { slot: String },
    Reset,
    Tap { button: String },
    Hold { button: String, duration: Option<String> },
}

/// An input that is noted in the log of a session.
#[derive(Debug)]
pub struct InputLogCommand {
    pub action: &'static str,
    pub button: String,
}

/// What a request asks for: a command, of a kind, by whoever holds a permission.
#[derive(Debug)]
pub struct EndpointPlan {
    pub permission: Permission,
    pub kind: CommandKind,
    pub command: String,
    pub input_log: Option<InputLogCommand>,
}

/// The permission that a request needs: reads look at the memory, everything else is control.
pub open spec fn permission_for(request: SessionRequest) -> Permission {
    match request {
        SessionRequest::Read8 { .. }
        | SessionRequest::Read16 { .. }
        | SessionRequest::ReadRange { .. }
        | SessionRequest::CurrentFrame => Permission::ReadMemory,
        _ => Permission::SendKey,
    }
}

/// The kind of command that a request leads to.
pub open spec fn kind_for(request: SessionRequest) -> CommandKind {
    match request {
        SessionRequest::CurrentFrame => CommandKind::FrameCapture,
        SessionRequest::SaveState { .. } | SessionRequest::LoadState { .. } => CommandKind::State,
        SessionRequest::Reset
        | SessionRequest::Tap { .. }
        | SessionRequest::Hold { .. } => CommandKind::Control,
        _ => CommandKind::MemoryRead,
    }
}

/// The command that a request leads to.
pub open spec fn command_for(request: SessionRequest) -> Seq<char> {
    match request {
        SessionRequest::Read8 { address } => message("core.read8"@, seq![address@]),
        SessionRequest::Read16 { address } => message("core.read16"@, seq![address@]),
        SessionRequest::ReadRange { address, length } => message(
            "core.readRange"@,
            seq![address@, length@],
        ),
        SessionRequest::CurrentFrame => message("core.currentFrame"@, Seq::empty()),
        SessionRequest::Write8 { address, value } => message("core.write8"@, seq![address@, value@]),
        SessionRequest::Write16 { address, value } => message(
            "core.write16"@,
            seq![address@, value@],
        ),
        SessionRequest::Write32 { address, value } => message(
            "core.write32"@,
            seq![address@, value@],
        ),
        SessionRequest::SaveState { slot } => message("core.saveStateSlot"@, seq![slot@]),
        SessionRequest::LoadState { slot } => message("core.loadStateSlot"@, seq![slot@]),
        SessionRequest::Reset => message("core.reset"@, Seq::empty()),
        SessionRequest::Tap { button } => message("mgba-http.button.tap"@, seq![button@]),
        SessionRequest::Hold { button, duration } => match duration {
            Some(frames) => message("mgba-http.button.hold"@, seq![button@, frames@]),
            None => message("mgba-http.button.hold"@, seq![button@, DEFAULT_HOLD@]),
        },
    }
}

/// Whether an input is noted for a request, and which.
pub open spec fn noted_for(request: SessionRequest, noted: Option<InputLogCommand>) -> bool {
    match request {
        SessionRequest::Tap { button } => noted matches Some(n) && n.action@ == "tap"@ && n.button
            == button,
        SessionRequest::Hold { button, .. } => noted matches Some(n) && n.action@ == "hold"@
            && n.button == button,
        _ => noted is None,
    }
}

fn one(a: String) -> (args: Vec<String>)
    ensures
        views(args@) == seq![a@],
{
    let mut args: Vec<String> = Vec::new();
    args.push(a);
    assert(views(args@) =~= seq![a@]);
    args
}

fn two(a: String, b: String) -> (args: Vec<String>)
    ensures
        views(args@) == seq![a@, b@],
{
    let mut args: Vec<String> = Vec::new();
    args.push(a);
    args.push(b);
    assert(views(args@) =~= seq![a@, b@]);
    args
}

fn nothing() -> (args: Vec<String>)
    ensures
        views(args@) == Seq::<Seq<char>>::empty(),
{
    let args: Vec<String> = Vec::new();
    assert(views(args@) =~= Seq::empty());
    args
}

/// What a request asks for.
pub fn plan_request(request: SessionRequest) -> (plan: EndpointPlan)
    ensures
        plan.permission == permission_for(request),
        plan.kind == kind_for(request),
        plan.command@ == command_for(request),
        noted_for(request, plan.input_log),
{
    let (permission, kind, command) = match request {
        SessionRequest::Tap { button } => {
            let command = button_command("mgba-http.button.tap", button.clone(), None);
            return EndpointPlan {
                permission: Permission::SendKey,
                kind: CommandKind::Control,
                command,
                input_log: Some(InputLogCommand { action: "tap", button }),
            };
        },
        SessionRequest::Hold { button, duration } => {
            let frames = match duration {
                Some(frames) => frames,
                None => DEFAULT_HOLD.to_owned(),
            };
            let command = button_command("mgba-http.button.hold", button.clone(), Some(frames));
            return EndpointPlan {
                permission: Permission::SendKey,
                kind: CommandKind::Control,
                command,
                input_log: Some(InputLogCommand { action: "hold", button }),
            };
        },
        SessionRequest::Read8 { address } => (
            Permission::ReadMemory,
            CommandKind::MemoryRead,
            read_command("core.read8", &one(address)),
        ),
        SessionRequest::Read16 { address } => (
            Permission::ReadMemory,
            CommandKind::MemoryRead,
            read_command("core.read16", &one(address)),
        ),
        SessionRequest::ReadRange { address, length } => (
            Permission::ReadMemory,
            CommandKind::MemoryRead,
            read_command("core.readRange", &two(address, length)),
        ),
        SessionRequest::CurrentFrame => (
            Permission::ReadMemory,
            CommandKind::FrameCapture,
            read_command("core.currentFrame", &nothing()),
        ),
        SessionRequest::Write8 { address, value } => (
            Permission::SendKey,
            CommandKind::MemoryRead,
            read_command("core.write8", &two(address, value)),
        ),
        SessionRequest::Write16 { address, value } => (
            Permission::SendKey,
            CommandKind::MemoryRead,
            read_command("core.write16", &two(address, value)),
        ),
        SessionRequest::Write32 { address, value } => (
            Permission::SendKey,
            CommandKind::MemoryRead,
            read_command("core.write32", &two(address, value)),
        ),
        SessionRequest::SaveState { slot } => (
            Permission::SendKey,
            CommandKind::State,
            read_command("core.saveStateSlot", &one(slot)),
        ),
        SessionRequest::LoadState { slot } => (
            Permission::SendKey,
            CommandKind::State,
            read_command("core.loadStateSlot", &one(slot)),
        ),
        SessionRequest::Reset => (
            Permission::SendKey,
            CommandKind::Control,
            read_command("core.reset", &nothing()),
        ),
    };
    EndpointPlan { permission, kind, command, input_log: None }
}

/// The token in the headers of a request: the one of its own header, else the one behind `Bearer `.
pub open spec fn token_in(own: Option<Seq<char>>, authorization: Option<Seq<char>>) -> Option<
    Seq<char>,
> {
    match own {
        Some(token) => Some(token),
        None => match authorization {
            Some(text) => if starts_with(text, "Bearer "@) {
                Some(text.skip("Bearer "@.len() as int))
            } else {
                None
            },
            None => None,
        },
    }
}

/// A header as a sequence of characters.
pub open spec fn header_view(header: Option<&str>) -> Option<Seq<char>> {
    match header {
        Some(text) => Some(text@),
        None => None,
    }
}

/// The token in the headers of a request, if there is one.
pub fn principal_token(own: Option<&str>, authorization: Option<&str>) -> (token: Option<String>)
    ensures
        match token {
            Some(t) => token_in(header_view(own), header_view(authorization)) == Some(t@),
            None => token_in(header_view(own), header_view(authorization)) is None,
        },
{
    match own {
        Some(token) => Some(token.to_owned()),
        None => match authorization {
            Some(text) => {
                let chars = chars_of(text);
                let scheme = chars_of("Bearer ");
                if has_start(&chars, &scheme) {
                    let token = chars_between(&chars, scheme.len(), chars.len());
                    assert(token@ =~= text@.skip("Bearer "@.len() as int));
                    Some(string_of(&token))
                } else {
                    None
                }
            },
            None => None,
        },
    }
}

/// Who a request comes from, if that may do what it asks for.
pub open spec fn admitted(
    acl: &AclService,
    token: Option<Seq<char>>,
    session: Seq<char>,
    permission: Permission,
) -> Result<PrincipalId, AuthError> {
    match token {
        Some(t) => acl.decides(token_hash(t), session, permission),
        None => Err(AuthError::InvalidToken),
    }
}

/// Who a request comes from, if that may do what it asks for.
pub fn authorize(
    acl: &AclService,
    own: Option<&str>,
    authorization: Option<&str>,
    session_id: &SessionId,
    permission: Permission,
) -> (res: Result<PrincipalId, AuthError>)
    requires
        acl.wf(),
    ensures
        res == admitted(
            acl,
            token_in(header_view(own), header_view(authorization)),
            session_id@,
            permission,
        ),
{
    match principal_token(own, authorization) {
        Some(token) => acl.check_token(&token, session_id, permission),
        None => Err(AuthError::InvalidToken),
    }
}

/// Whether `reply` is how a request is turned away.
pub open spec fn turned_away(error: AuthError, reply: Reply) -> bool {
    match error {
        AuthError::InvalidToken => reply.is_error(401, "Unauthorized"@),
        AuthError::MissingGrant | AuthError::Forbidden => reply.is_error(403, "Forbidden"@),
    }
}

/// How a request is turned away: whoever is not known is told so, whoever is known but may not do it
/// is not told why.
pub fn auth_response(error: AuthError) -> (reply: Reply)
    ensures
        turned_away(error, reply),
{
    match error {
        AuthError::InvalidToken => error_reply(401, "Unauthorized"),
        AuthError::MissingGrant | AuthError::Forbidden => error_reply(403, "Forbidden"),
    }
}

/// A command that is on its way to a session.
#[derive(Debug)]
pub struct PendingCommand {
    pub session_id: SessionId,
    pub kind: CommandKind,
    pub command: String,
    /// The input in the log of the session, where one was noted.
    pub input_event_id: Option<String>,
}

/// Lets a request through, or says how it is answered: a malformed command first, then whoever may
/// not send it. Only a request that is let through is noted in the log.
pub fn begin_command(
    acl: &AclService,
    log: &mut InputLogBus,
    own: Option<&str>,
    authorization: Option<&str>,
    session: &str,
    plan: EndpointPlan,
) -> (res: Result<PendingCommand, Reply>)
    requires
        acl.wf(),
        old(log).wf(),
    ensures
        final(log).wf(),
        ({
            let token = token_in(header_view(own), header_view(authorization));
            match command_fault(plan.command@) {
                Some(fault) => *final(log) == *old(log) && (res matches Err(reply)
                    && reply.is_error(400, fault@)),
                None => match admitted(acl, token, session@, plan.permission) {
                    Err(error) => *final(log) == *old(log) && (res matches Err(reply)
                        && turned_away(error, reply)),
                    Ok(_) => res matches Ok(pending) && pending.session_id@ == session@
                        && pending.kind == plan.kind && pending.command == plan.command && match (
                        plan.input_log,
                        pending.input_event_id,
                    ) {
                        (Some(noted), Some(id)) => {
                            let event = final(log).pending_of(session@)[id@];
                            &&& is_random_uuid(id@)
                            &&& final(log).same_but(old(log), session@)
                            &&& final(log).recent_of(session@) == old(log).recent_of(session@)
                            &&& final(log).pending_of(session@) == old(log).pending_of(
                                session@,
                            ).insert(id@, event)
                            &&& event.event_id@ == id@
                            &&& event.session_id@ == session@
                            &&& event.action@ == noted.action@
                            &&& event.button matches Some(b) && b@ == noted.button@
                            &&& event.status == InputEventStatus::Pending
                            &&& event.started_at.is_reading()
                            &&& event.started_at.wf()
                            &&& event.completed_at is None
                            &&& event.latency_ms is None
                        },
                        (None, None) => *final(log) == *old(log),
                        _ => false,
                    },
                },
            }
        }),
{
    let command = match validate_command(plan.command) {
        Ok(command) => command,
        Err(why) => {
            return Err(error_reply(400, why));
        },
    };
    let session_id = SessionId::new(session);
    match authorize(acl, own, authorization, &session_id, plan.permission) {
        Err(error) => Err(auth_response(error)),
        Ok(_) => {
            let input_event_id = match plan.input_log {
                Some(noted) => Some(
                    log.begin_input(session, noted.action, Some(noted.button.as_str())),
                ),
                None => None,
            };
            Ok(PendingCommand { session_id, kind: plan.kind, command, input_event_id })
        },
    }
}

/// How sending a command to a session ended.
#[derive(Debug)]
pub enum CommandOutcome {
    /// The session answered.
    Answered(CommandResult),
    /// The session could not be reached, with the reason in words.
    Failed(String),
    /// The session took too long.
    TimedOut,
}

/// Whether `reply` answers a request whose command ended so.
pub open spec fn answers(outcome: CommandOutcome, reply: Reply) -> bool {
    match outcome {
        CommandOutcome::Answered(result) => reply.status == 200 && (reply.body
            matches ReplyBody::Command { response, request_id, latency_ms } && response
            == result.response && request_id == result.trace.request_id && latency_ms
            == result.trace.enqueue_at.millis_until(result.trace.caller_complete_at)),
        CommandOutcome::Failed(why) => reply.is_error(502, why@),
        CommandOutcome::TimedOut => reply.is_error(504, "timeout"@),
    }
}

/// Whether an input ended as its command did.
pub open spec fn ended_with(outcome: CommandOutcome, event: InputEvent) -> bool {
    match outcome {
        CommandOutcome::Answered(result) => event.status == InputEventStatus::Completed && (
        event.latency_ms matches Some(ms) && ms == result.trace.enqueue_at.millis_until(
            result.trace.caller_complete_at,
        )),
        _ => event.status == InputEventStatus::Failed && event.latency_ms is None,
    }
}

/// Answers a request whose command was sent, and notes in the log how it ended. The input that
/// ended, where one was noted, is handed back with the answer.
pub fn finish_command(
    log: &mut InputLogBus,
    input_event_id: Option<String>,
    outcome: CommandOutcome,
) -> (res: (Reply, Option<InputEvent>))
    requires
        old(log).wf(),
        outcome matches CommandOutcome::Answered(result) ==> result.trace.wf(),
    ensures
        final(log).wf(),
        answers(outcome, res.0),
        match input_event_id {
            None => res.1 is None && *final(log) == *old(log),
            Some(id) => final(log).ended_one(old(log), id@, res.1),
        },
        res.1 matches Some(event) ==> ended_with(outcome, event),
{
    match outcome {
        CommandOutcome::Answered(result) => {
            let latency_ms: i64 = result.trace.caller_latency_ms();
            let event = match input_event_id {
                Some(id) => log.complete_input(&id, latency_ms),
                None => None,
            };
            let body = ReplyBody::Command {
                response: result.response,
                request_id: result.trace.request_id,
                latency_ms,
            };
            (Reply { status: 200, body }, event)
        },
        CommandOutcome::Failed(why) => {
            let event = match input_event_id {
                Some(id) => log.fail_input(&id),
                None => None,
            };
            (error_reply(502, &why), event)
        },
        CommandOutcome::TimedOut => {
            let event = match input_event_id {
                Some(id) => log.fail_input(&id),
                None => None,
            };
            (error_reply(504, "timeout"), event)
        },
    }
}

/// Answers a request for a picture once it is known whether the session has one, and what became of
/// it as a PNG file.
pub fn screenshot_reply(png: Option<Result<Vec<u8>, String>>) -> (reply: Reply)
    ensures
        match png {
            None => reply.is_error(503, "no frame available yet"@),
            Some(Ok(file)) => reply.status == 200 && (reply.body matches ReplyBody::Png(bytes)
                && bytes == file),
            Some(Err(why)) => reply.is_error(500, why@),
        },
{
    match png {
        None => error_reply(503, "no frame available yet"),
        Some(Ok(file)) => Reply { status: 200, body: ReplyBody::Png(file) },
        Some(Err(why)) => error_reply(500, &why),
    }
}

/// The instances that a dashboard shows, in the order of their names, each with its number. Numbers
/// start over at 256.
pub fn dashboard_instances(hub: &FrameHub) -> (instances: Vec<(String, u8)>)
    requires
        hub.wf(),
    ensures
        forall|i: int|
            0 <= i < instances@.len() ==> (#[trigger] instances@[i]).1 == i % 256
                && hub.channels().dom().contains(instances@[i].0@),
        forall|i: int, j: int|
            0 <= i < j < instances@.len() ==> text_less(
                (#[trigger] instances@[i]).0@,
                (#[trigger] instances@[j]).0@,
            ),
        forall|id: Seq<char>| #[trigger]
            hub.channels().dom().contains(id) ==> exists|i: int|
                0 <= i < instances@.len() && (#[trigger] instances@[i]).0@ == id,
{
    let ids = hub.registered_instances();
    let mut instances: Vec<(String, u8)> = Vec::new();
    let mut i: usize = 0;
    while i < ids.len()
        invariant
            i <= ids@.len(),
            instances@.len() == i,
            forall|j: int|
                0 <= j < i ==> (#[trigger] instances@[j]).0 == ids@[j] && instances@[j].1 == j
                    % 256,
        decreases ids.len() - i,
    {
        instances.push((ids[i].clone(), (i % 256) as u8));
        i += 1;
    }
    proof {
        assert forall|j: int| 0 <= j < instances@.len() implies hub.channels().dom().contains(
            (#[trigger] instances@[j]).0@,
        ) by {
            assert(ids@[j]@ == instances@[j].0@);
            assert(among(ids@, ids@[j]@));
        }
        assert forall|id: Seq<char>| #[trigger]
            hub.channels().dom().contains(id) implies exists|i: int|
            0 <= i < instances@.len() && (#[trigger] instances@[i]).0@ == id by {
            assert(among(ids@, id));
            let j = choose|j: int| 0 <= j < ids@.len() && #[trigger] ids@[j]@ == id;
            assert(instances@[j].0@ == id);
        }
    }
    instances
}

/// Lets a request through that needs no command, or says how it is answered.
pub fn let_in(
    acl: &AclService,
    own: Option<&str>,
    authorization: Option<&str>,
    session: &str,
    permission: Permission,
) -> (res: Result<PrincipalId, Reply>)
    requires
        acl.wf(),
    ensures
        match admitted(
            acl,
            token_in(header_view(own), header_view(authorization)),
            session@,
            permission,
        ) {
            Ok(principal) => res == Ok::<PrincipalId, Reply>(principal),
            Err(error) => res matches Err(reply) && turned_away(error, reply),
        },
{
    match authorize(acl, own, authorization, &SessionId::new(session), permission) {
        Ok(principal) => Ok(principal),
        Err(error) => Err(auth_response(error)),
    }
}

/// The log of a session, for whoever may see it.
pub fn read_logs(
    acl: &AclService,
    log: &InputLogBus,
    own: Option<&str>,
    authorization: Option<&str>,
    session: &str,
) -> (res: Result<(PrincipalId, Vec<InputEvent>), Reply>)
    requires
        acl.wf(),
        log.wf(),
    ensures
        match admitted(
            acl,
            token_in(header_view(own), header_view(authorization)),
            session@,
            Permission::ViewInputLogs,
        ) {
            Ok(principal) => res matches Ok(seen) && seen.0 == principal && seen.1@
                == log.recent_of(session@),
            Err(error) => res matches Err(reply) && turned_away(error, reply),
        },
{
    match let_in(acl, own, authorization, session, Permission::ViewInputLogs) {
        Ok(principal) => Ok((principal, log.recent(session))),
        Err(reply) => Err(reply),
    }
}

/// The latest picture of a session, where it has one.
pub open spec fn latest_of(hub: &FrameHub, session: Seq<char>) -> Option<RawFrame> {
    if hub.channels().dom().contains(session) {
        hub.channels()[session]
    } else {
        None
    }
}

/// Whether `reply` shows a picture, or says why it does not.
pub open spec fn shows(frame: &RawFrame, reply: Reply) -> bool {
    if frame.pixel_format != PixelFormat::XRGB8888 {
        reply.is_error(500, "unsupported pixel format"@)
    } else if !whole_pixels(frame) {
        reply.is_error(500, "frame buffer is too small"@)
    } else {
        match png_file(frame_rgba(frame), frame.width, frame.height) {
            Ok(file) => reply.status == 200 && (reply.body matches ReplyBody::Png(bytes) && bytes@
                == file),
            Err(why) => reply.is_error(500, why),
        }
    }
}

/// The latest picture of a session as a PNG file, for whoever may watch it.
pub fn screenshot(
    acl: &AclService,
    hub: &FrameHub,
    own: Option<&str>,
    authorization: Option<&str>,
    session: &str,
) -> (reply: Reply)
    requires
        acl.wf(),
        hub.wf(),
        latest_of(hub, session@) matches Some(frame) ==> frame.width * frame.height * 4
            <= usize::MAX,
    ensures
        match admitted(
            acl,
            token_in(header_view(own), header_view(authorization)),
            session@,
            Permission::ViewStream,
        ) {
            Err(error) => turned_away(error, reply),
            Ok(_) => match latest_of(hub, session@) {
                None => reply.is_error(503, "no frame available yet"@),
                Some(frame) => shows(&frame, reply),
            },
        },
{
    match let_in(acl, own, authorization, session, Permission::ViewStream) {
        Err(reply) => reply,
        Ok(_) => match hub.latest_frame(session) {
            None => screenshot_reply(None),
            Some(frame) => screenshot_reply(Some(xrgb8888_to_png(frame))),
        },
    }
}

/// Whether the arguments of a request are well formed.
pub open spec fn well_formed(request: SessionRequest) -> bool {
    match request {
        SessionRequest::Read8 { address } | SessionRequest::Read16 { address } => numeric_arg(
            address@,
        ),
        SessionRequest::ReadRange { address, length } => numeric_arg(address@) && decimal_arg(
            length@,
        ),
        SessionRequest::CurrentFrame | SessionRequest::Reset => true,
        SessionRequest::Write8 { address, value }
        | SessionRequest::Write16 { address, value }
        | SessionRequest::Write32 { address, value } => numeric_arg(address@) && numeric_arg(
            value@,
        ),
        SessionRequest::SaveState { slot } | SessionRequest::LoadState { slot } => decimal_arg(
            slot@,
        ),
        SessionRequest::Tap { button } => button_name(button@),
        SessionRequest::Hold { button, duration } => button_name(button@) && match duration {
            Some(frames) => decimal_arg(frames@),
            None => true,
        },
    }
}

proof fn lemma_no_comma(s: Seq<char>)
    requires
        numeric_arg(s) || button_name(s),
    ensures
        !s.contains(','),
{
    reveal_strlit("0x");
    reveal_strlit("A");
    reveal_strlit("B");
    reveal_strlit("L");
    reveal_strlit("R");
    reveal_strlit("Start");
    reveal_strlit("Select");
    reveal_strlit("Up");
    reveal_strlit("Down");
    reveal_strlit("Left");
    reveal_strlit("Right");
    if button_name(s) {
        reveal_with_fuel(lacks, 8);
        assert(lacks(s, ',', 0));
        lemma_lacks(s, ',', 0);
    } else if decimal_arg(s) {
        assert forall|i: int| 0 <= i < s.len() implies s[i] != ',' by {
            assert(digit_value(s[i], 10) is Some);
        }
    } else {
        assert(s.take(2)[0] == s[0] && s.take(2)[1] == s[1]);
        assert forall|i: int| 0 <= i < s.len() implies s[i] != ',' by {
            if i >= 2 {
                assert(digit_value(s[i], 16) is Some);
            }
        }
    }
}

#[verifier::rlimit(30)]
proof fn lemma_names_have_no_comma()
    ensures
        !"core.read8"@.contains(','),
        !"core.read16"@.contains(','),
        !"core.readRange"@.contains(','),
        !"core.write8"@.contains(','),
        !"core.write16"@.contains(','),
        !"core.write32"@.contains(','),
        !"core.currentFrame"@.contains(','),
        !"core.saveStateSlot"@.contains(','),
        !"core.loadStateSlot"@.contains(','),
        !"core.reset"@.contains(','),
        !"mgba-http.button.tap"@.contains(','),
        !"mgba-http.button.hold"@.contains(','),
{
    reveal_strlit("core.read8");
    reveal_strlit("core.read16");
    reveal_strlit("core.readRange");
    reveal_strlit("core.write8");
    reveal_strlit("core.write16");
    reveal_strlit("core.write32");
    reveal_strlit("core.currentFrame");
    reveal_strlit("core.saveStateSlot");
    reveal_strlit("core.loadStateSlot");
    reveal_strlit("core.reset");
    reveal_strlit("mgba-http.button.tap");
    reveal_strlit("mgba-http.button.hold");
    reveal_with_fuel(lacks, 22);
    lemma_lacks("core.read8"@, ',', 0);
    lemma_lacks("core.read16"@, ',', 0);
    lemma_lacks("core.readRange"@, ',', 0);
    lemma_lacks("core.write8"@, ',', 0);
    lemma_lacks("core.write16"@, ',', 0);
    lemma_lacks("core.write32"@, ',', 0);
    lemma_lacks("core.currentFrame"@, ',', 0);
    lemma_lacks("core.saveStateSlot"@, ',', 0);
    lemma_lacks("core.loadStateSlot"@, ',', 0);
    lemma_lacks("core.reset"@, ',', 0);
    lemma_lacks("mgba-http.button.tap"@, ',', 0);
    lemma_lacks("mgba-http.button.hold"@, ',', 0);
}

#[verifier::rlimit(30)]
proof fn lemma_names_differ()
    ensures
        "core.read16"@ != "core.read8"@,
        "core.readRange"@ != "core.read8"@,
        "core.readRange"@ != "core.read16"@,
        "core.write8"@ != "core.read8"@,
        "core.write8"@ != "core.read16"@,
        "core.write8"@ != "core.readRange"@,
        "core.write16"@ != "core.read8"@,
        "core.write16"@ != "core.read16"@,
        "core.write16"@ != "core.readRange"@,
        "core.write16"@ != "core.write8"@,
        "core.write32"@ != "core.read8"@,
        "core.write32"@ != "core.read16"@,
        "core.write32"@ != "core.readRange"@,
        "core.write32"@ != "core.write8"@,
        "core.write32"@ != "core.write16"@,
        "core.saveStateSlot"@ != "core.read8"@,
        "core.saveStateSlot"@ != "core.read16"@,
        "core.saveStateSlot"@ != "core.readRange"@,
        "core.saveStateSlot"@ != "core.write8"@,
        "core.saveStateSlot"@ != "core.write16"@,
        "core.saveStateSlot"@ != "core.write32"@,
        "core.loadStateSlot"@ != "core.read8"@,
        "core.loadStateSlot"@ != "core.read16"@,
        "core.loadStateSlot"@ != "core.readRange"@,
        "core.loadStateSlot"@ != "core.write8"@,
        "core.loadStateSlot"@ != "core.write16"@,
        "core.loadStateSlot"@ != "core.write32"@,
        "core.loadStateSlot"@ != "core.saveStateSlot"@,
        "core.reset"@ != "core.read8"@,
        "core.reset"@ != "core.read16"@,
        "core.reset"@ != "core.readRange"@,
        "core.reset"@ != "core.write8"@,
        "core.reset"@ != "core.write16"@,
        "core.reset"@ != "core.write32"@,
        "core.reset"@ != "core.saveStateSlot"@,
        "core.reset"@ != "core.loadStateSlot"@,
        "core.currentFrame"@ != "core.read8"@,
        "core.currentFrame"@ != "core.read16"@,
        "core.currentFrame"@ != "core.readRange"@,
        "core.currentFrame"@ != "core.write8"@,
        "core.currentFrame"@ != "core.write16"@,
        "core.currentFrame"@ != "core.write32"@,
        "core.currentFrame"@ != "core.saveStateSlot"@,
        "core.currentFrame"@ != "core.loadStateSlot"@,
        "core.currentFrame"@ != "core.reset"@,
        "mgba-http.button.tap"@ != "core.read8"@,
        "mgba-http.button.tap"@ != "core.read16"@,
        "mgba-http.button.tap"@ != "core.readRange"@,
        "mgba-http.button.tap"@ != "core.write8"@,
        "mgba-http.button.tap"@ != "core.write16"@,
        "mgba-http.button.tap"@ != "core.write32"@,
        "mgba-http.button.tap"@ != "core.saveStateSlot"@,
        "mgba-http.button.tap"@ != "core.loadStateSlot"@,
        "mgba-http.button.tap"@ != "core.reset"@,
        "mgba-http.button.tap"@ != "core.currentFrame"@,
        "mgba-http.button.hold"@ != "core.read8"@,
        "mgba-http.button.hold"@ != "core.read16"@,
        "mgba-http.button.hold"@ != "core.readRange"@,
        "mgba-http.button.hold"@ != "core.write8"@,
        "mgba-http.button.hold"@ != "core.write16"@,
        "mgba-http.button.hold"@ != "core.write32"@,
        "mgba-http.button.hold"@ != "core.saveStateSlot"@,
        "mgba-http.button.hold"@ != "core.loadStateSlot"@,
        "mgba-http.button.hold"@ != "core.reset"@,
        "mgba-http.button.hold"@ != "core.currentFrame"@,
        "mgba-http.button.hold"@ != "mgba-http.button.tap"@,
{
    reveal_strlit("core.read8");
    reveal_strlit("core.read16");
    reveal_strlit("core.readRange");
    reveal_strlit("core.write8");
    reveal_strlit("core.write16");
    reveal_strlit("core.write32");
    reveal_strlit("core.saveStateSlot");
    reveal_strlit("core.loadStateSlot");
    reveal_strlit("core.reset");
    reveal_strlit("core.currentFrame");
    reveal_strlit("mgba-http.button.tap");
    reveal_strlit("mgba-http.button.hold");
    assert("core.read8"@.len() == 10);
    assert("core.read16"@.len() == 11);
    assert("core.readRange"@.len() == 14);
    assert("core.write8"@.len() == 11);
    assert("core.write16"@.len() == 12);
    assert("core.write32"@.len() == 12);
    assert("core.saveStateSlot"@.len() == 18);
    assert("core.loadStateSlot"@.len() == 18);
    assert("core.reset"@.len() == 10);
    assert("core.currentFrame"@.len() == 17);
    assert("mgba-http.button.tap"@.len() == 20);
    assert("mgba-http.button.hold"@.len() == 21);
    assert("core.write8"@[5] == 'w' && "core.read16"@[5] == 'r');
    assert("core.write32"@[10] == '3' && "core.write16"@[10] == '1');
    assert("core.loadStateSlot"@[5] == 'l' && "core.saveStateSlot"@[5] == 's');
    assert("core.reset"@[7] == 's' && "core.read8"@[7] == 'a');
}

proof fn lemma_other_names_differ()
    ensures
        "core.read8"@ != "core.screenshot"@,
        "core.read8"@ != "restart"@,
        "core.read16"@ != "core.screenshot"@,
        "core.read16"@ != "restart"@,
        "core.readRange"@ != "core.screenshot"@,
        "core.readRange"@ != "restart"@,
        "core.write8"@ != "core.screenshot"@,
        "core.write8"@ != "restart"@,
        "core.write16"@ != "core.screenshot"@,
        "core.write16"@ != "restart"@,
        "core.write32"@ != "core.screenshot"@,
        "core.write32"@ != "restart"@,
        "core.saveStateSlot"@ != "core.screenshot"@,
        "core.saveStateSlot"@ != "restart"@,
        "core.loadStateSlot"@ != "core.screenshot"@,
        "core.loadStateSlot"@ != "restart"@,
        "core.reset"@ != "core.screenshot"@,
        "core.reset"@ != "restart"@,
        "core.currentFrame"@ != "core.screenshot"@,
        "core.currentFrame"@ != "restart"@,
        "mgba-http.button.tap"@ != "core.screenshot"@,
        "mgba-http.button.tap"@ != "restart"@,
        "mgba-http.button.hold"@ != "core.screenshot"@,
        "mgba-http.button.hold"@ != "restart"@,
{
    reveal_strlit("core.read8");
    reveal_strlit("core.read16");
    reveal_strlit("core.readRange");
    reveal_strlit("core.write8");
    reveal_strlit("core.write16");
    reveal_strlit("core.write32");
    reveal_strlit("core.saveStateSlot");
    reveal_strlit("core.loadStateSlot");
    reveal_strlit("core.reset");
    reveal_strlit("core.currentFrame");
    reveal_strlit("mgba-http.button.tap");
    reveal_strlit("mgba-http.button.hold");
    reveal_strlit("core.screenshot");
    reveal_strlit("restart");
    assert("core.read8"@.len() == 10);
    assert("core.read16"@.len() == 11);
    assert("core.readRange"@.len() == 14);
    assert("core.write8"@.len() == 11);
    assert("core.write16"@.len() == 12);
    assert("core.write32"@.len() == 12);
    assert("core.saveStateSlot"@.len() == 18);
    assert("core.loadStateSlot"@.len() == 18);
    assert("core.reset"@.len() == 10);
    assert("core.currentFrame"@.len() == 17);
    assert("mgba-http.button.tap"@.len() == 20);
    assert("mgba-http.button.hold"@.len() == 21);
    assert("core.screenshot"@.len() == 15);
    assert("restart"@.len() == 7);
}

proof fn lemma_one(name: Seq<char>, a: Seq<char>)
    requires
        !name.contains(','),
    ensures
        ({
            let fields = command_fields(message(name, seq![a]));
            &&& command_fault(message(name, seq![a])) == objection(fields)
            &&& fields[0] == name
            &&& fields.len() >= 2
            &&& fields.len() == 2 ==> fields[1] == a
            &&& numeric_arg(a) || button_name(a) ==> fields.len() == 2
        }),
{
    let args = seq![a];
    law_arguments_stay_apart(name, args);
    assert(args[0] == a);
    if numeric_arg(a) || button_name(a) {
        lemma_no_comma(a);
        assert forall|i: int| 0 <= i < args.len() implies !(#[trigger] args[i]).contains(',') by {}
    }
}

proof fn lemma_two(name: Seq<char>, a: Seq<char>, b: Seq<char>)
    requires
        !name.contains(','),
    ensures
        ({
            let fields = command_fields(message(name, seq![a, b]));
            &&& command_fault(message(name, seq![a, b])) == objection(fields)
            &&& fields[0] == name
            &&& fields.len() >= 3
            &&& fields.len() == 3 ==> fields[1] == a && fields[2] == b
            &&& (numeric_arg(a) || button_name(a)) && numeric_arg(b) ==> fields.len() == 3
        }),
{
    let args = seq![a, b];
    law_arguments_stay_apart(name, args);
    assert(args[0] == a && args[1] == b);
    if (numeric_arg(a) || button_name(a)) && numeric_arg(b) {
        lemma_no_comma(a);
        lemma_no_comma(b);
        assert forall|i: int| 0 <= i < args.len() implies !(#[trigger] args[i]).contains(',') by {}
    }
}

proof fn lemma_none(name: Seq<char>)
    requires
        !name.contains(','),
    ensures
        ({
            let fields = command_fields(message(name, Seq::empty()));
            &&& command_fault(message(name, Seq::empty())) == objection(fields)
            &&& fields[0] == name
            &&& fields.len() == 1
        }),
{
    law_arguments_stay_apart(name, Seq::empty());
}

/// A request is let through just where its arguments are well formed.
#[verifier::rlimit(30)]
pub proof fn law_well_formed_requests_are_let_through(request: SessionRequest)
    ensures
        command_fault(command_for(request)) is None <==> well_formed(request),
{
    lemma_names_have_no_comma();
    lemma_names_differ();
    match request {
        SessionRequest::Read8 { address } => lemma_one("core.read8"@, address@),
        SessionRequest::Read16 { address } => lemma_one("core.read16"@, address@),
        SessionRequest::ReadRange { address, length } => lemma_two(
            "core.readRange"@,
            address@,
            length@,
        ),
        SessionRequest::CurrentFrame => lemma_none("core.currentFrame"@),
        SessionRequest::Write8 { address, value } => lemma_two("core.write8"@, address@, value@),
        SessionRequest::Write16 { address, value } => lemma_two("core.write16"@, address@, value@),
        SessionRequest::Write32 { address, value } => lemma_two("core.write32"@, address@, value@),
        SessionRequest::SaveState { slot } => lemma_one("core.saveStateSlot"@, slot@),
        SessionRequest::LoadState { slot } => lemma_one("core.loadStateSlot"@, slot@),
        SessionRequest::Reset => lemma_none("core.reset"@),
        SessionRequest::Tap { button } => lemma_one("mgba-http.button.tap"@, button@),
        SessionRequest::Hold { button, duration } => match duration {
            Some(frames) => lemma_two("mgba-http.button.hold"@, button@, frames@),
            None => {
                reveal_strlit("15");
                assert(digit_value('1', 10) is Some && digit_value('5', 10) is Some);
                assert(decimal_arg(DEFAULT_HOLD@));
                lemma_two("mgba-http.button.hold"@, button@, DEFAULT_HOLD@);
            },
        },
    }
}

/// Whoever only watches may send no request, and whoever controls may send each.
pub proof fn law_requests_are_for_controllers(request: SessionRequest)
    ensures
        !role_allows(Role::Viewer, permission_for(request)),
        role_allows(Role::Controller, permission_for(request)),
        role_allows(Role::Owner, permission_for(request)),
{
}

/// Whether the numbers in a request are small enough for a worker to take them.
pub open spec fn in_range(request: SessionRequest) -> bool {
    match request {
        SessionRequest::Read8 { address } | SessionRequest::Read16 { address } => arg_value(
            address@,
        ) <= u32::MAX,
        SessionRequest::ReadRange { address, length } => arg_value(address@) <= u32::MAX
            && arg_value(length@) <= u32::MAX,
        SessionRequest::Write8 { address, value }
        | SessionRequest::Write16 { address, value }
        | SessionRequest::Write32 { address, value } => arg_value(address@) <= u32::MAX
            && arg_value(value@) <= u32::MAX,
        SessionRequest::SaveState { slot } | SessionRequest::LoadState { slot } => arg_value(slot@)
            <= u8::MAX,
        SessionRequest::Hold { button, duration } => match duration {
            Some(frames) => arg_value(frames@) <= u32::MAX,
            None => true,
        },
        _ => true,
    }
}

/// What a worker is asked for a request.
pub open spec fn meaning(request: SessionRequest) -> CommandView {
    match request {
        SessionRequest::Read8 { address } => CommandView::ReadMemory {
            address: arg_value(address@) as u32,
            size: 1,
        },
        SessionRequest::Read16 { address } => CommandView::ReadMemory {
            address: arg_value(address@) as u32,
            size: 2,
        },
        SessionRequest::ReadRange { address, length } => CommandView::ReadMemory {
            address: arg_value(address@) as u32,
            size: arg_value(length@) as u32,
        },
        SessionRequest::CurrentFrame => CommandView::GetCurrentFrame,
        SessionRequest::Write8 { address, value } => CommandView::WriteMemory {
            address: arg_value(address@) as u32,
            data: seq![(arg_value(value@) % 0x100) as u8],
        },
        SessionRequest::Write16 { address, value } => CommandView::WriteMemory {
            address: arg_value(address@) as u32,
            data: le16(arg_value(value@) as u32),
        },
        SessionRequest::Write32 { address, value } => CommandView::WriteMemory {
            address: arg_value(address@) as u32,
            data: le32(arg_value(value@) as u32),
        },
        SessionRequest::SaveState { slot } => CommandView::SaveState { slot: arg_value(slot@) as u8 },
        SessionRequest::LoadState { slot } => CommandView::LoadState { slot: arg_value(slot@) as u8 },
        SessionRequest::Reset => CommandView::Reset,
        SessionRequest::Tap { button } => CommandView::ButtonTap { button: button@ },
        SessionRequest::Hold { button, duration } => CommandView::ButtonHold {
            button: button@,
            duration_frames: match duration {
                Some(frames) => arg_value(frames@) as u32,
                None => 15,
            },
        },
    }
}

proof fn lemma_decimal_value(s: Seq<char>, max: int)
    requires
        decimal_arg(s),
        arg_value(s) <= max,
    ensures
        parsed_number(s, 10, max) == Ok::<int, NumberError>(arg_value(s)),
        0 <= arg_value(s),
{
    lemma_digits_are_parsed(s, 10, max);
}

/// A well-formed request reaches the worker as what it means: the text that the gateway sends is
/// read as that very request.
#[verifier::rlimit(30)]
pub proof fn law_request_reaches_worker(request: SessionRequest)
    requires
        well_formed(request),
        in_range(request),
    ensures
        message_request(command_for(request)) == Some(meaning(request)),
{
    law_well_formed_requests_are_let_through(request);
    lemma_names_have_no_comma();
    lemma_names_differ();
    lemma_other_names_differ();
    match request {
        SessionRequest::Read8 { address } => {
            lemma_one("core.read8"@, address@);
            lemma_address(address@);
        },
        SessionRequest::Read16 { address } => {
            lemma_one("core.read16"@, address@);
            lemma_address(address@);
        },
        SessionRequest::ReadRange { address, length } => {
            lemma_two("core.readRange"@, address@, length@);
            lemma_address(address@);
            lemma_decimal_value(length@, u32::MAX as int);
        },
        SessionRequest::CurrentFrame => lemma_none("core.currentFrame"@),
        SessionRequest::Write8 { address, value } => {
            lemma_two("core.write8"@, address@, value@);
            lemma_address(address@);
            lemma_address(value@);
        },
        SessionRequest::Write16 { address, value } => {
            lemma_two("core.write16"@, address@, value@);
            lemma_address(address@);
            lemma_address(value@);
        },
        SessionRequest::Write32 { address, value } => {
            lemma_two("core.write32"@, address@, value@);
            lemma_address(address@);
            lemma_address(value@);
        },
        SessionRequest::SaveState { slot } => {
            lemma_one("core.saveStateSlot"@, slot@);
            lemma_decimal_value(slot@, u8::MAX as int);
        },
        SessionRequest::LoadState { slot } => {
            lemma_one("core.loadStateSlot"@, slot@);
            lemma_decimal_value(slot@, u8::MAX as int);
        },
        SessionRequest::Reset => lemma_none("core.reset"@),
        SessionRequest::Tap { button } => lemma_one("mgba-http.button.tap"@, button@),
        SessionRequest::Hold { button, duration } => match duration {
            Some(frames) => {
                lemma_two("mgba-http.button.hold"@, button@, frames@);
                lemma_decimal_value(frames@, u32::MAX as int);
            },
            None => {
                reveal_strlit("15");
                assert(DEFAULT_HOLD@ =~= seq!['1', '5']);
                assert(decimal_arg(DEFAULT_HOLD@));
                lemma_two("mgba-http.button.hold"@, button@, DEFAULT_HOLD@);
                lemma_fifteen();
                lemma_decimal_value(DEFAULT_HOLD@, u32::MAX as int);
            },
        },
    }
}

proof fn lemma_fifteen()
    ensures
        digits_value(seq!['1', '5'], 10) == 15,
{
    let s = seq!['1', '5'];
    assert(s.drop_last() =~= seq!['1']);
    assert(seq!['1'].drop_last() =~= Seq::empty());
    reveal_with_fuel(digits_value, 3);
    assert(digit_value('1', 10) == Some(1int));
    assert(digit_value('5', 10) == Some(5int));
}

/// What is read through the gateway after `written` was: the text of the worker's answer.
pub open spec fn read_after(ram: Seq<u8>, write: CommandView, read: CommandView) -> Seq<char> {
    let after = written(ram, ram_offset(write->WriteMemory_address), write->WriteMemory_data);
    response_text(
        read_answer(Some(after), read->ReadMemory_address, read->ReadMemory_size),
    )
}

/// A byte that was written through the gateway is read back as a decimal number.
pub proof fn law_written_byte_is_read_back(address: String, value: String, ram: Seq<u8>)
    requires
        numeric_arg(address@),
        numeric_arg(value@),
        arg_value(address@) <= u32::MAX,
        arg_value(value@) <= u32::MAX,
        ram_offset(arg_value(address@) as u32) + 1 <= ram.len() <= usize::MAX,
    ensures
        read_after(
            ram,
            meaning(SessionRequest::Write8 { address, value }),
            meaning(SessionRequest::Read8 { address }),
        ) == decimal(arg_value(value@) % 0x100) + SUCCESS_MARKER@,
{
    lemma_address(address@);
    lemma_address(value@);
    let at = arg_value(address@) as u32;
    let data = seq![(arg_value(value@) % 0x100) as u8];
    law_written_memory_is_read_back(ram, at, data);
}

/// Two bytes that were written through the gateway are read back as a decimal number.
pub proof fn law_written_pair_is_read_back(address: String, value: String, ram: Seq<u8>)
    requires
        numeric_arg(address@),
        numeric_arg(value@),
        arg_value(address@) <= u32::MAX,
        arg_value(value@) <= u32::MAX,
        ram_offset(arg_value(address@) as u32) + 2 <= ram.len() <= usize::MAX,
    ensures
        read_after(
            ram,
            meaning(SessionRequest::Write16 { address, value }),
            meaning(SessionRequest::Read16 { address }),
        ) == decimal(arg_value(value@) % 0x1_0000) + SUCCESS_MARKER@,
{
    lemma_address(address@);
    lemma_address(value@);
    let at = arg_value(address@) as u32;
    let v = arg_value(value@);
    let data = le16(v as u32);
    law_written_memory_is_read_back(ram, at, data);
    assert(data[0] + data[1] * 0x100 == v % 0x1_0000);
}

/// A request is sent as its name and its arguments, each behind a comma, and the mark of its end.
pub proof fn law_requests_in_characters(request: SessionRequest)
    ensures
        ({
            let text = command_for(request);
            let end = "<|END|>"@;
            match request {
                SessionRequest::Read8 { address } => text == "core.read8"@ + seq![','] + address@
                    + end,
                SessionRequest::Read16 { address } => text == "core.read16"@ + seq![','] + address@
                    + end,
                SessionRequest::ReadRange { address, length } => text == "core.readRange"@ + seq![
                    ',',
                ] + address@ + seq![','] + length@ + end,
                SessionRequest::CurrentFrame => text == "core.currentFrame"@ + end,
                SessionRequest::Write8 { address, value } => text == "core.write8"@ + seq![',']
                    + address@ + seq![','] + value@ + end,
                SessionRequest::Write16 { address, value } => text == "core.write16"@ + seq![',']
                    + address@ + seq![','] + value@ + end,
                SessionRequest::Write32 { address, value } => text == "core.write32"@ + seq![',']
                    + address@ + seq![','] + value@ + end,
                SessionRequest::SaveState { slot } => text == "core.saveStateSlot"@ + seq![',']
                    + slot@ + end,
                SessionRequest::LoadState { slot } => text == "core.loadStateSlot"@ + seq![',']
                    + slot@ + end,
                SessionRequest::Reset => text == "core.reset"@ + end,
                SessionRequest::Tap { button } => text == "mgba-http.button.tap"@ + seq![',']
                    + button@ + end,
                SessionRequest::Hold { button, duration } => text == "mgba-http.button.hold"@
                    + seq![','] + button@ + seq![','] + match duration {
                    Some(frames) => frames@,
                    None => "15"@,
                } + end,
            }
        }),
{
    match request {
        SessionRequest::Read8 { address } => law_message_in_characters(
            "core.read8"@,
            address@,
            Seq::empty(),
        ),
        SessionRequest::Read16 { address } => law_message_in_characters(
            "core.read16"@,
            address@,
            Seq::empty(),
        ),
        SessionRequest::ReadRange { address, length } => law_message_in_characters(
            "core.readRange"@,
            address@,
            length@,
        ),
        SessionRequest::CurrentFrame => law_message_in_characters(
            "core.currentFrame"@,
            Seq::empty(),
            Seq::empty(),
        ),
        SessionRequest::Write8 { address, value } => law_message_in_characters(
            "core.write8"@,
            address@,
            value@,
        ),
        SessionRequest::Write16 { address, value } => law_message_in_characters(
            "core.write16"@,
            address@,
            value@,
        ),
        SessionRequest::Write32 { address, value } => law_message_in_characters(
            "core.write32"@,
            address@,
            value@,
        ),
        SessionRequest::SaveState { slot } => law_message_in_characters(
            "core.saveStateSlot"@,
            slot@,
            Seq::empty(),
        ),
        SessionRequest::LoadState { slot } => law_message_in_characters(
            "core.loadStateSlot"@,
            slot@,
            Seq::empty(),
        ),
        SessionRequest::Reset => law_message_in_characters(
            "core.reset"@,
            Seq::empty(),
            Seq::empty(),
        ),
        SessionRequest::Tap { button } => law_message_in_characters(
            "mgba-http.button.tap"@,
            button@,
            Seq::empty(),
        ),
        SessionRequest::Hold { button, duration } => match duration {
            Some(frames) => law_message_in_characters("mgba-http.button.hold"@, button@, frames@),
            None => law_message_in_characters("mgba-http.button.hold"@, button@, "15"@),
        },
    }
}

/// A request whose numbers are written in decimal asks the worker for what they say: a byte, a pair of
/// bytes or a number of bytes at an address; a number of one, two or four bytes to be put there, the
/// low byte first; a slot; a number of frames.
pub proof fn law_numbers_reach_worker(request: SessionRequest, a: u32, b: u32)
    ensures
        ({
            let told = message_request(command_for(request));
            let first = decimal(a as int);
            let second = decimal(b as int);
            match request {
                SessionRequest::Read8 { address } => address@ == first ==> told == Some(
                    CommandView::ReadMemory { address: a, size: 1 },
                ),
                SessionRequest::Read16 { address } => address@ == first ==> told == Some(
                    CommandView::ReadMemory { address: a, size: 2 },
                ),
                SessionRequest::ReadRange { address, length } => address@ == first && length@
                    == second ==> told == Some(CommandView::ReadMemory { address: a, size: b }),
                SessionRequest::CurrentFrame => told == Some(CommandView::GetCurrentFrame),
                SessionRequest::Write8 { address, value } => address@ == first && value@ == second
                    ==> (told matches Some(CommandView::WriteMemory { address, data }) && address
                    == a && data.len() == 1 && data[0] == b % 256),
                SessionRequest::Write16 { address, value } => address@ == first && value@ == second
                    ==> (told matches Some(CommandView::WriteMemory { address, data }) && address
                    == a && data.len() == 2 && data[0] + 256 * data[1] == b % 65_536),
                SessionRequest::Write32 { address, value } => address@ == first && value@ == second
                    ==> (told matches Some(CommandView::WriteMemory { address, data }) && address
                    == a && data.len() == 4 && data[0] + 256 * data[1] + 65_536 * data[2]
                    + 16_777_216 * data[3] == b),
                SessionRequest::SaveState { slot } => slot@ == first && a < 256 ==> told == Some(
                    CommandView::SaveState { slot: a as u8 },
                ),
                SessionRequest::LoadState { slot } => slot@ == first && a < 256 ==> told == Some(
                    CommandView::LoadState { slot: a as u8 },
                ),
                SessionRequest::Reset => told == Some(CommandView::Reset),
                SessionRequest::Tap { button } => button_name(button@) ==> told == Some(
                    CommandView::ButtonTap { button: button@ },
                ),
                SessionRequest::Hold { button, duration } => button_name(button@) ==> {
                    &&& duration is None ==> told == Some(
                        CommandView::ButtonHold { button: button@, duration_frames: 15 },
                    )
                    &&& (duration matches Some(frames) && frames@ == first) ==> told == Some(
                        CommandView::ButtonHold { button: button@, duration_frames: a },
                    )
                },
            }
        }),
{
    law_value_of_arguments(a, Seq::empty());
    law_value_of_arguments(b, Seq::empty());
    law_low_byte_comes_first(b);
    if well_formed(request) && in_range(request) {
        law_request_reaches_worker(request);
    }
}

/// A token in its own header counts. Otherwise the one behind `Bearer ` in the header for
/// authorization does, and there is none where that header starts otherwise or is missing.
pub proof fn law_token_is_found(own: Seq<char>, text: Seq<char>, other: Option<Seq<char>>)
    ensures
        token_in(Some(own), other) == Some(own),
        token_in(None, Some("Bearer "@ + text)) == Some(text),
        token_in(None, None) is None,
        token_in(None, Some(text)) is Some <==> text.len() >= 7 && text.take(7) == "Bearer "@,
{
    reveal_strlit("Bearer ");
    let all = "Bearer "@ + text;
    assert(all.take(7) =~= "Bearer "@);
    assert(all.skip(7) =~= text);
}

/// Without a token a request is answered with 401, as with a token that nobody has, and 403 is for
/// those who are known but may not do what they ask for.
pub proof fn law_refusals_have_their_status(
    acl: &AclService,
    token: Option<Seq<char>>,
    session: Seq<char>,
    permission: Permission,
    reply: Reply,
)
    requires
        admitted(acl, token, session, permission) matches Err(error) && turned_away(error, reply),
    ensures
        token is None || !acl.tokens().dom().contains(token_hash(token->0)) ==> reply.status == 401
            && (reply.body matches ReplyBody::Error(why) && why@ == "Unauthorized"@),
        token is Some && acl.tokens().dom().contains(token_hash(token->0)) ==> reply.status == 403
            && (reply.body matches ReplyBody::Error(why) && why@ == "Forbidden"@),
{
}

/// An answer is passed on with 200, a session that cannot be reached is 502, and one that takes too
/// long is 504.
pub proof fn law_outcomes_have_their_status(outcome: CommandOutcome, reply: Reply)
    requires
        answers(outcome, reply),
    ensures
        outcome is Answered <==> reply.status == 200,
        outcome is Failed <==> reply.status == 502,
        outcome is TimedOut <==> reply.status == 504,
        outcome matches CommandOutcome::Answered(result) ==> (reply.body
            matches ReplyBody::Command { response, request_id, .. } && response == result.response
            && request_id == result.trace.request_id),
        outcome matches CommandOutcome::Failed(why) ==> (reply.body matches ReplyBody::Error(text)
            && text@ == why@),
        outcome is TimedOut ==> (reply.body matches ReplyBody::Error(text) && text@ == "timeout"@),
        outcome matches CommandOutcome::Answered(result) ==> (reply.body
            matches ReplyBody::Command { latency_ms, .. } && {
            let from = result.trace.enqueue_at;
            let to = result.trace.caller_complete_at;
            let nanos = (to.secs - from.secs) * 1_000_000_000 + (to.nanos - from.nanos);
            nanos >= 0 ==> 1_000_000 * latency_ms <= nanos < 1_000_000 * (latency_ms + 1)
        }),
{
    if let CommandOutcome::Answered(result) = outcome {
        law_spans_are_whole_milliseconds(result.trace.enqueue_at, result.trace.caller_complete_at);
    }
}

/// Whoever may read the memory may send what only looks, and all else is for whoever may press keys.
/// Saved states are of a kind of their own, as are pictures and what steers the game.
pub proof fn law_requests_have_their_kind(request: SessionRequest)
    ensures
        ({
            let looks = request is Read8 || request is Read16 || request is ReadRange || request
                is CurrentFrame;
            let steers = request is Reset || request is Tap || request is Hold;
            let saves = request is SaveState || request is LoadState;
            &&& permission_for(request) == if looks {
                Permission::ReadMemory
            } else {
                Permission::SendKey
            }
            &&& kind_for(request) == if request is CurrentFrame {
                CommandKind::FrameCapture
            } else if saves {
                CommandKind::State
            } else if steers {
                CommandKind::Control
            } else {
                CommandKind::MemoryRead
            }
        }),
{
}

/// Every button that a request may name is one that the worker knows.
pub proof fn law_worker_knows_the_buttons(button: Seq<char>)
    ensures
        button_name(button) <==> button_bit(button) is Some && button != "X"@ && button != "Y"@,
{
    reveal_strlit("A");
    reveal_strlit("B");
    reveal_strlit("L");
    reveal_strlit("R");
    reveal_strlit("X");
    reveal_strlit("Y");
    reveal_strlit("Start");
    reveal_strlit("Select");
    reveal_strlit("Up");
    reveal_strlit("Down");
    reveal_strlit("Left");
    reveal_strlit("Right");
    assert("A"@[0] == 'A' && "B"@[0] == 'B' && "L"@[0] == 'L' && "R"@[0] == 'R' && "X"@[0] == 'X'
        && "Y"@[0] == 'Y');
    assert("Start"@.len() == 5 && "Select"@.len() == 6 && "Up"@.len() == 2 && "Down"@.len() == 4
        && "Left"@.len() == 4 && "Right"@.len() == 5);
}

/// A tap and a hold are noted as what they are, with their button, and nothing else is noted.
pub proof fn law_inputs_are_noted(request: SessionRequest, noted: Option<InputLogCommand>)
    requires
        noted_for(request, noted),
    ensures
        noted is Some <==> request is Tap || request is Hold,
        request matches SessionRequest::Tap { button } ==> noted->0.action@ == "tap"@
            && noted->0.button@ == button@,
        request matches SessionRequest::Hold { button, .. } ==> noted->0.action@ == "hold"@
            && noted->0.button@ == button@,
{
}

/// An input whose command was answered is completed, with the time from its coming in to its answer in
/// whole milliseconds; any other has failed, without a time.
pub proof fn law_inputs_end_as_their_commands(outcome: CommandOutcome, event: InputEvent)
    requires
        ended_with(outcome, event),
    ensures
        outcome is Answered <==> event.status == InputEventStatus::Completed,
        outcome is Answered <==> event.latency_ms is Some,
        event.status == InputEventStatus::Completed || event.status == InputEventStatus::Failed,
        outcome matches CommandOutcome::Answered(result) ==> {
            let ms = event.latency_ms->0 as int;
            let from = result.trace.enqueue_at;
            let to = result.trace.caller_complete_at;
            let nanos = (to.secs - from.secs) * 1_000_000_000 + (to.nanos - from.nanos);
            nanos >= 0 ==> 1_000_000 * ms <= nanos < 1_000_000 * (ms + 1)
        },
{
    if let CommandOutcome::Answered(result) = outcome {
        law_spans_are_whole_milliseconds(result.trace.enqueue_at, result.trace.caller_complete_at);
    }
}

/// A picture is shown from the channel of its session, as a PNG file of its pixels. One in another
/// format than 32 bits a pixel is refused, and so is one whose buffer ends too early.
pub proof fn law_pictures_are_shown(hub: &FrameHub, session: Seq<char>, frame: &RawFrame, reply: Reply)
    requires
        shows(frame, reply),
    ensures
        reply.status == 200 ==> frame.pixel_format == PixelFormat::XRGB8888 && (frame.width == 0
            || frame.height == 0 || (frame.height - 1) * frame.pitch + frame.width * 4
            <= frame.data@.len()),
        reply.status == 200 || reply.status == 500,
        frame.pixel_format != PixelFormat::XRGB8888 ==> reply.is_error(
            500,
            "unsupported pixel format"@,
        ),
        latest_of(hub, session) is Some <==> hub.channels().dom().contains(session)
            && hub.channels()[session] is Some,
        latest_of(hub, session) is Some ==> latest_of(hub, session) == hub.channels()[session],
{
    law_pixels_are_whole_up_to_the_last(frame);
}

/// An error is answered with the status and the text that it has.
pub proof fn law_errors_are_told(reply: Reply, status: u16, text: Seq<char>)
    ensures
        reply.is_error(status, text) <==> reply.status == status && reply.body is Error && (
        reply.body matches ReplyBody::Error(why) && why@ == text),
{
}

/// A command gets as long as a worker does: five seconds.
pub proof fn law_waiting_ends()
    ensures
        COMMAND_TIMEOUT_MS == 5000,
        CALL_TIMEOUT_MS == 5000,
        CORE_TIMEOUT_MS == 5000,
{
}

} // verus!
