use mgba_gateway::auth::{AclService, Permission, PrincipalId, Role, SessionId};
use mgba_gateway::gateway::api::{
    CommandOutcome, PendingCommand, Reply, ReplyBody, SessionRequest, auth_response,
    begin_command, dashboard_instances, finish_command, let_in, plan_request, principal_token,
    read_logs, screenshot, screenshot_reply,
};
use mgba_gateway::gateway::commands::{is_numeric_arg, validate_command};
use mgba_gateway::gateway::png::{picture_rgba, xrgb8888_to_png};
use mgba_gateway::mgba::ipc_transport::parse_message_to_command;
use mgba_gateway::mgba::{
    CommandKind, CommandPriority, CommandResult, CommandTrace, format_message,
};
use mgba_gateway::streaming::{FrameHub, InputEventStatus, InputLogBus, PixelFormat, RawFrame};
use mgba_gateway::time::Timestamp;

struct Fixture {
    acl: AclService,
    log: InputLogBus,
    hub: FrameHub,
    token: String,
}

fn fixture(role: Role, session: &str) -> Fixture {
    let mut acl = AclService::new();
    let principal = PrincipalId::new("principal-a");
    let token = acl.issue_principal_token(principal.clone()).token;
    acl.grant(principal, SessionId::new(session), role);
    let mut hub = FrameHub::new();
    hub.register_instance(session);
    Fixture {
        acl,
        log: InputLogBus::new(),
        hub,
        token,
    }
}

fn text(s: &str) -> String {
    s.to_string()
}

fn begin(
    f: &mut Fixture,
    token: Option<&str>,
    session: &str,
    request: SessionRequest,
) -> Result<PendingCommand, Reply> {
    begin_command(&f.acl, &mut f.log, token, None, session, plan_request(request))
}

fn sent(f: &mut Fixture, session: &str, request: SessionRequest) -> String {
    let token = f.token.clone();
    let pending = begin(f, Some(&token), session, request).unwrap();
    format!(
        "{}:{:?}:{}",
        pending.session_id.as_str(),
        pending.kind,
        pending.command
    )
}

fn error_of(reply: &Reply) -> (u16, &str) {
    match &reply.body {
        ReplyBody::Error(why) => (reply.status, why.as_str()),
        other => panic!("expected an error, got {other:?}"),
    }
}

fn refused(f: &mut Fixture, token: Option<&str>, session: &str, request: SessionRequest) -> u16 {
    let reply = begin(f, token, session, request).unwrap_err();
    error_of(&reply).0
}

fn at(secs: i64, nanos: u32) -> Timestamp {
    Timestamp { secs, nanos }
}

fn answered(kind: CommandKind) -> CommandOutcome {
    CommandOutcome::Answered(CommandResult {
        response: text("ok"),
        trace: CommandTrace {
            request_id: text("request-1"),
            instance_id: text("instance-1"),
            kind,
            priority: CommandPriority::Control,
            enqueue_at: at(100, 0),
            dequeue_at: at(100, 1_000_000),
            socket_write_at: at(100, 2_000_000),
            response_at: at(100, 12_999_999),
            caller_complete_at: at(100, 15_500_000),
        },
    })
}

#[test]
fn controller_can_send_key_command() {
    let mut f = fixture(Role::Controller, "session-a");
    assert_eq!(
        sent(&mut f, "session-a", SessionRequest::Tap { button: text("A") }),
        "session-a:Control:mgba-http.button.tap,A<|END|>"
    );
}

fn logged(request: SessionRequest, outcome: CommandOutcome) -> (Reply, InputLogBus) {
    let mut f = fixture(Role::Controller, "session-a");
    let token = f.token.clone();
    let pending = begin(&mut f, Some(&token), "session-a", request).unwrap();
    assert!(f.log.recent("session-a").is_empty());
    let id = pending.input_event_id.clone().unwrap();
    let (reply, event) = finish_command(&mut f.log, pending.input_event_id, outcome);
    assert_eq!(event.unwrap().event_id, id);
    (reply, f.log)
}

#[test]
fn button_tap_logs_completed_event_when_command_succeeds() {
    let (reply, log) = logged(
        SessionRequest::Tap { button: text("A") },
        answered(CommandKind::Control),
    );
    assert_eq!(reply.status, 200);
    match reply.body {
        ReplyBody::Command {
            response,
            request_id,
            latency_ms,
        } => {
            assert_eq!(response, "ok");
            assert_eq!(request_id, "request-1");
            assert_eq!(latency_ms, 15);
        }
        other => panic!("unexpected body {other:?}"),
    }
    let recent = log.recent("session-a");
    assert_eq!(recent.len(), 1);
    assert_eq!(recent[0].action, "tap");
    assert_eq!(recent[0].button, Some("A".to_string()));
    assert_eq!(recent[0].status, InputEventStatus::Completed);
    assert!(recent[0].completed_at.is_some());
    assert_eq!(recent[0].latency_ms, Some(15));
}

#[test]
fn button_hold_logs_completed_event_when_command_succeeds() {
    let (reply, log) = logged(
        SessionRequest::Hold {
            button: text("B"),
            duration: Some(text("15")),
        },
        answered(CommandKind::Control),
    );
    assert_eq!(reply.status, 200);
    let recent = log.recent("session-a");
    assert_eq!(recent.len(), 1);
    assert_eq!(recent[0].action, "hold");
    assert_eq!(recent[0].button, Some("B".to_string()));
    assert_eq!(recent[0].status, InputEventStatus::Completed);
    assert!(recent[0].completed_at.is_some());
    assert!(recent[0].latency_ms.is_some());
}

#[test]
fn button_tap_logs_failed_event_when_command_service_errors() {
    let (reply, log) = logged(
        SessionRequest::Tap { button: text("A") },
        CommandOutcome::Failed(text("socket closed")),
    );
    assert_eq!(error_of(&reply), (502, "socket closed"));
    let recent = log.recent("session-a");
    assert_eq!(recent.len(), 1);
    assert_eq!(recent[0].action, "tap");
    assert_eq!(recent[0].button, Some("A".to_string()));
    assert_eq!(recent[0].status, InputEventStatus::Failed);
    assert!(recent[0].completed_at.is_some());
    assert_eq!(recent[0].latency_ms, None);
}

#[test]
fn button_hold_logs_failed_event_when_command_service_errors() {
    let (reply, log) = logged(
        SessionRequest::Hold {
            button: text("B"),
            duration: Some(text("15")),
        },
        CommandOutcome::Failed(text("socket closed")),
    );
    assert_eq!(error_of(&reply), (502, "socket closed"));
    let recent = log.recent("session-a");
    assert_eq!(recent.len(), 1);
    assert_eq!(recent[0].action, "hold");
    assert_eq!(recent[0].button, Some("B".to_string()));
    assert_eq!(recent[0].status, InputEventStatus::Failed);
    assert!(recent[0].completed_at.is_some());
    assert_eq!(recent[0].latency_ms, None);
}

#[test]
fn an_input_that_takes_too_long_has_failed() {
    let (reply, log) = logged(
        SessionRequest::Tap { button: text("L") },
        CommandOutcome::TimedOut,
    );
    assert_eq!(error_of(&reply), (504, "timeout"));
    let recent = log.recent("session-a");
    assert_eq!(recent.len(), 1);
    assert_eq!(recent[0].action, "tap");
    assert_eq!(recent[0].button, Some("L".to_string()));
    assert_eq!(recent[0].status, InputEventStatus::Failed);
    assert!(recent[0].completed_at.is_some());
    assert_eq!(recent[0].latency_ms, None);
}

#[test]
fn commands_without_an_input_leave_the_log_alone() {
    let mut f = fixture(Role::Controller, "session-a");
    let token = f.token.clone();
    let pending = begin(&mut f, Some(&token), "session-a", SessionRequest::Reset).unwrap();
    assert!(pending.input_event_id.is_none());
    let (reply, event) = finish_command(&mut f.log, None, answered(CommandKind::Control));
    assert_eq!(reply.status, 200);
    assert!(event.is_none());
    assert!(f.log.recent("session-a").is_empty());
}

#[test]
fn viewer_is_forbidden_from_memory_read() {
    let mut f = fixture(Role::Viewer, "session-a");
    let token = f.token.clone();
    let bearer = format!("Bearer {token}");
    let plan = plan_request(SessionRequest::Read8 { address: text("0xD35E") });
    let reply = begin_command(&f.acl, &mut f.log, None, Some(&bearer), "session-a", plan);
    assert_eq!(error_of(&reply.unwrap_err()), (403, "Forbidden"));
}

#[test]
fn cross_session_token_fails_before_handler() {
    let mut f = fixture(Role::Controller, "session-a");
    let token = f.token.clone();
    let request = SessionRequest::Tap { button: text("A") };
    assert_eq!(refused(&mut f, Some(&token), "session-b", request), 403);
    assert!(f.log.recent("session-b").is_empty());
}

#[test]
fn invalid_control_args_are_rejected_before_socket_send() {
    let mut f = fixture(Role::Controller, "session-a");
    let token = f.token.clone();
    let request = SessionRequest::Tap { button: text("A,core.read8") };
    assert_eq!(refused(&mut f, Some(&token), "session-a", request), 400);
}

#[test]
fn invalid_memory_args_are_rejected_before_socket_send() {
    let mut f = fixture(Role::Controller, "session-a");
    let token = f.token.clone();
    let request = SessionRequest::ReadRange {
        address: text("0xD35E"),
        length: text("1,core.read8"),
    };
    assert_eq!(refused(&mut f, Some(&token), "session-a", request), 400);
}

#[test]
fn controller_can_write8() {
    let mut f = fixture(Role::Controller, "session-a");
    let request = SessionRequest::Write8 {
        address: text("0xD35E"),
        value: text("0x42"),
    };
    assert_eq!(
        sent(&mut f, "session-a", request),
        "session-a:MemoryRead:core.write8,0xD35E,0x42<|END|>"
    );
}

#[test]
fn controller_can_write_wider_values() {
    let mut f = fixture(Role::Controller, "session-a");
    let request = SessionRequest::Write16 {
        address: text("1"),
        value: text("2"),
    };
    assert_eq!(
        sent(&mut f, "session-a", request),
        "session-a:MemoryRead:core.write16,1,2<|END|>"
    );
    let request = SessionRequest::Write32 {
        address: text("1"),
        value: text("2"),
    };
    assert_eq!(
        sent(&mut f, "session-a", request),
        "session-a:MemoryRead:core.write32,1,2<|END|>"
    );
}

#[test]
fn controller_can_save_state_slot() {
    let mut f = fixture(Role::Controller, "session-a");
    assert_eq!(
        sent(&mut f, "session-a", SessionRequest::SaveState { slot: text("3") }),
        "session-a:State:core.saveStateSlot,3<|END|>"
    );
}

#[test]
fn controller_can_load_state_slot() {
    let mut f = fixture(Role::Controller, "session-a");
    assert_eq!(
        sent(&mut f, "session-a", SessionRequest::LoadState { slot: text("1") }),
        "session-a:State:core.loadStateSlot,1<|END|>"
    );
}

#[test]
fn controller_can_reset() {
    let mut f = fixture(Role::Controller, "session-a");
    assert_eq!(
        sent(&mut f, "session-a", SessionRequest::Reset),
        "session-a:Control:core.reset<|END|>"
    );
}

#[test]
fn current_frame_returns_capture() {
    let mut f = fixture(Role::Controller, "session-a");
    assert_eq!(
        sent(&mut f, "session-a", SessionRequest::CurrentFrame),
        "session-a:FrameCapture:core.currentFrame<|END|>"
    );
}

#[test]
fn missing_token_returns_unauthorized() {
    let mut f = fixture(Role::Controller, "session-a");
    assert_eq!(refused(&mut f, None, "session-a", SessionRequest::Reset), 401);
}

#[test]
fn invalid_write_args_rejected() {
    let mut f = fixture(Role::Controller, "session-a");
    let token = f.token.clone();
    let request = SessionRequest::Write8 {
        address: text("0xD35E"),
        value: text("notanumber"),
    };
    assert_eq!(refused(&mut f, Some(&token), "session-a", request), 400);
}

#[test]
fn invalid_slot_rejected() {
    let mut f = fixture(Role::Controller, "session-a");
    let token = f.token.clone();
    let request = SessionRequest::SaveState { slot: text("abc") };
    assert_eq!(refused(&mut f, Some(&token), "session-a", request), 400);
}

#[test]
fn screenshot_returns_503_when_no_frame() {
    let f = fixture(Role::Viewer, "session-a");
    let reply = screenshot(&f.acl, &f.hub, Some(&f.token), None, "session-a");
    assert_eq!(error_of(&reply), (503, "no frame available yet"));
    assert_eq!(screenshot(&f.acl, &f.hub, Some("bad"), None, "session-a").status, 401);
    assert_eq!(error_of(&screenshot_reply(Some(Err(text("bad frame"))))), (500, "bad frame"));
}

#[test]
fn controller_can_read16() {
    let mut f = fixture(Role::Controller, "session-a");
    assert_eq!(
        sent(&mut f, "session-a", SessionRequest::Read16 { address: text("0xD35E") }),
        "session-a:MemoryRead:core.read16,0xD35E<|END|>"
    );
}

#[test]
fn controller_can_read_range() {
    let mut f = fixture(Role::Controller, "session-a");
    let request = SessionRequest::ReadRange {
        address: text("0xD35E"),
        length: text("3"),
    };
    assert_eq!(
        sent(&mut f, "session-a", request),
        "session-a:MemoryRead:core.readRange,0xD35E,3<|END|>"
    );
}

#[test]
fn controller_can_read8() {
    let mut f = fixture(Role::Controller, "session-a");
    assert_eq!(
        sent(&mut f, "session-a", SessionRequest::Read8 { address: text("0xD35E") }),
        "session-a:MemoryRead:core.read8,0xD35E<|END|>"
    );
}

#[test]
fn controller_can_button_hold() {
    let mut f = fixture(Role::Controller, "session-a");
    let request = SessionRequest::Hold {
        button: text("B"),
        duration: Some(text("15")),
    };
    assert_eq!(
        sent(&mut f, "session-a", request),
        "session-a:Control:mgba-http.button.hold,B,15<|END|>"
    );
}

#[test]
fn controller_button_hold_default_duration() {
    let mut f = fixture(Role::Controller, "session-a");
    let request = SessionRequest::Hold {
        button: text("Start"),
        duration: None,
    };
    assert_eq!(
        sent(&mut f, "session-a", request),
        "session-a:Control:mgba-http.button.hold,Start,15<|END|>"
    );
}

#[test]
fn invalid_button_rejected() {
    let mut f = fixture(Role::Controller, "session-a");
    let token = f.token.clone();
    let request = SessionRequest::Tap { button: text("NotAButton") };
    assert_eq!(refused(&mut f, Some(&token), "session-a", request), 400);
}

fn picture(width: u32, height: u32) -> RawFrame {
    RawFrame {
        width,
        height,
        pitch: width * 4,
        pixel_format: PixelFormat::XRGB8888,
        data: [1u8, 2, 3, 4].repeat((width * height) as usize),
        sequence: 0,
        timestamp_ms: 0,
    }
}

#[test]
fn screenshot_returns_png_for_latest_frame() {
    let mut f = fixture(Role::Viewer, "session-a");
    let mut frame = picture(240, 160);
    frame.data = [0x00, 0x00, 0xff, 0xff].repeat(240 * 160);
    f.hub.push_frame("session-a", frame, 5);
    let reply = screenshot(&f.acl, &f.hub, Some(&f.token), None, "session-a");
    assert_eq!(reply.status, 200);
    let ReplyBody::Png(file) = reply.body else {
        panic!("expected a picture");
    };
    let image = image::load_from_memory_with_format(&file, image::ImageFormat::Png).unwrap();
    assert_eq!(image.width(), 240);
    assert_eq!(image.height(), 160);
    assert_eq!(image.to_rgba8().get_pixel(7, 9).0, [255, 0, 0, 255]);
}

#[test]
fn pictures_that_cannot_be_shown_are_refused() {
    let mut frame = picture(2, 2);
    frame.data.pop();
    assert_eq!(xrgb8888_to_png(&frame), Err(text("frame buffer is too small")));
    frame.pixel_format = PixelFormat::RGB565;
    assert_eq!(xrgb8888_to_png(&frame), Err(text("unsupported pixel format")));
    assert_eq!(
        picture_rgba(&picture(1, 2)),
        Ok(vec![3, 2, 1, 255, 3, 2, 1, 255])
    );
    assert!(xrgb8888_to_png(&picture(0, 0)).is_err());
}

#[test]
fn tokens_come_from_either_header() {
    assert_eq!(principal_token(Some("a"), Some("Bearer b")), Some(text("a")));
    assert_eq!(principal_token(None, Some("Bearer b")), Some(text("b")));
    assert_eq!(principal_token(None, Some("Bearer ")), Some(text("")));
    assert_eq!(principal_token(None, Some("bearer b")), None);
    assert_eq!(principal_token(None, Some("Basic b")), None);
    assert_eq!(principal_token(None, None), None);
    let mut f = fixture(Role::Controller, "session-a");
    let bearer = format!("Bearer {}", f.token);
    let plan = plan_request(SessionRequest::Reset);
    assert!(begin_command(&f.acl, &mut f.log, None, Some(&bearer), "session-a", plan).is_ok());
}

#[test]
fn logs_are_for_whoever_may_see_them() {
    let mut f = fixture(Role::Viewer, "session-a");
    let id = f.log.begin_input("session-a", "tap", Some("A"));
    f.log.complete_input(&id, 3);
    let (principal, events) = read_logs(&f.acl, &f.log, Some(&f.token), None, "session-a").unwrap();
    assert_eq!(principal.as_str(), "principal-a");
    assert_eq!(events.len(), 1);
    let reply = read_logs(&f.acl, &f.log, Some("bad"), None, "session-a").unwrap_err();
    assert_eq!(error_of(&reply), (401, "Unauthorized"));
    assert!(let_in(&f.acl, Some(&f.token), None, "session-a", Permission::ViewStream).is_ok());
    let reply = let_in(&f.acl, Some(&f.token), None, "session-a", Permission::SendKey).unwrap_err();
    assert_eq!(error_of(&reply), (403, "Forbidden"));
    assert_eq!(
        error_of(&auth_response(mgba_gateway::auth::AuthError::MissingGrant)),
        (403, "Forbidden")
    );
}

fn verdict(body: &str) -> Result<String, &'static str> {
    validate_command(format!("{body}<|END|>"))
}

#[test]
fn each_objection_has_its_words() {
    assert_eq!(validate_command(text("core.reset")), Err("invalid command terminator"));
    assert_eq!(verdict("core.reset"), Ok(text("core.reset<|END|>")));
    assert_eq!(verdict("core.reset,1"), Err("reset takes no args"));
    assert_eq!(verdict("core.currentFrame,1"), Err("currentFrame takes no args"));
    assert_eq!(verdict("core.read8"), Err("missing address"));
    assert_eq!(verdict("core.read16,x"), Err("invalid address"));
    assert_eq!(verdict("core.read8,1,2"), Err("invalid address"));
    assert_eq!(verdict("core.readRange"), Err("missing address"));
    assert_eq!(verdict("core.readRange,1"), Err("missing length"));
    assert_eq!(verdict("core.readRange,1,0x2"), Err("invalid range"));
    assert_eq!(verdict("core.write8"), Err("missing address"));
    assert_eq!(verdict("core.write16,1"), Err("missing value"));
    assert_eq!(verdict("core.write32,1,x"), Err("invalid write args"));
    assert_eq!(verdict("core.saveStateSlot"), Err("missing slot"));
    assert_eq!(verdict("core.loadStateSlot,0x1"), Err("invalid slot"));
    assert_eq!(verdict("mgba-http.button.tap"), Err("missing button"));
    assert_eq!(verdict("mgba-http.button.tap,X"), Err("invalid button"));
    assert_eq!(verdict("mgba-http.button.hold"), Err("missing button"));
    assert_eq!(verdict("mgba-http.button.hold,A"), Err("missing duration"));
    assert_eq!(verdict("mgba-http.button.hold,A,x"), Err("invalid hold"));
    assert_eq!(verdict("core.screenshot"), Err("unsupported command"));
    assert_eq!(verdict(""), Err("unsupported command"));
}

#[test]
fn numeric_arguments_are_decimal_or_hexadecimal() {
    for good in ["0", "12", "0x0", "0xfF"] {
        assert!(is_numeric_arg(good), "{good}");
    }
    for bad in ["", "0x", "0X1", "-1", "+1", "1a", "0xg", "\u{0663}"] {
        assert!(!is_numeric_arg(bad), "{bad}");
    }
}

#[test]
fn checked_commands_are_understood_unless_a_number_is_too_large() {
    let good = format_message("core.write16", &["0xffffffff", "4294967295"]);
    assert!(validate_command(good.clone()).is_ok());
    assert!(parse_message_to_command(&good).is_some());
    let large = format_message("core.read8", &["4294967296"]);
    assert!(validate_command(large.clone()).is_ok());
    assert!(parse_message_to_command(&large).is_none());
}

#[test]
fn dashboards_number_instances_by_name() {
    let mut hub = FrameHub::new();
    for i in (0..258).rev() {
        hub.register_instance(&format!("{i:03}"));
    }
    let instances = dashboard_instances(&hub);
    assert_eq!(instances.len(), 258);
    assert_eq!(instances[0], (text("000"), 0));
    assert_eq!(instances[255], (text("255"), 255));
    assert_eq!(instances[257], (text("257"), 1));
}
