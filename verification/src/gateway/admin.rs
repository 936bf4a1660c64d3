//! Requests that manage instances.
use crate::auth::{
    AclService, AuthError, Permission, PrincipalId, Role, SessionId, role_allows, token_hash,
};
use crate::gateway::api::{Reply, ReplyBody, error_reply, header_view};
use crate::ids::{is_random_uuid, new_uuid};
use crate::instances::{
    CreateInstanceOptions, InstanceError, InstanceInfo, InstanceManager, InstanceStatus, WorkerInfo,
    follows,
};
use crate::ipc::transport::RawFramePacket;
use crate::streaming::frame_hub::{FrameHub, PixelFormat, RawFrame};
use crate::streaming::metrics::{MetricsSnapshot, StreamMetrics};
use crate::text::text_eq;
use vstd::prelude::*;

verus! {

/// How often the frame socket of a new instance is tried.
pub const INGEST_ATTEMPTS: u32 = 100;

/// How long to wait between two tries, in milliseconds.
pub const INGEST_RETRY_MS: u64 = 50;

/// Whether a request carries the admin token.
pub fn check_admin_token(header: Option<&str>, expected: &str) -> (accepted: bool)
    ensures
        accepted == (header_view(header) == Some(expected@)),
{
    match header {
        Some(token) => text_eq(token, expected),
        None => false,
    }
}

/// How a request without the admin token is answered.
pub fn unauthorized() -> (reply: Reply)
    ensures
        reply.is_error(401, "Unauthorized"@),
{
    error_reply(401, "Unauthorized")
}

/// Whether `reply` is how a request is answered whose instance could not be made.
pub open spec fn creation_failed(error: InstanceError, reply: Reply) -> bool {
    match error {
        InstanceError::MaxInstancesReached => reply.is_error(503, "max instances reached"@),
        _ => reply.is_error(500, error.words()),
    }
}

/// How a request is answered whose instance could not be made.
pub fn creation_failure(error: &InstanceError) -> (reply: Reply)
    ensures
        creation_failed(*error, reply),
{
    match error {
        InstanceError::MaxInstancesReached => error_reply(503, "max instances reached"),
        _ => error_reply(500, &error.message()),
    }
}

/// Whether `reply` is how a request is answered whose instance was to be ended.
pub open spec fn destruction_answered(outcome: Result<(), InstanceError>, reply: Reply) -> bool {
    match outcome {
        Ok(_) => reply.status == 200 && reply.body is Done,
        Err(InstanceError::NotFound) => reply.is_error(404, "not found"@),
        Err(error) => reply.is_error(500, error.words()),
    }
}

/// How a request is answered whose instance was to be ended.
pub fn destruction_reply(outcome: &Result<(), InstanceError>) -> (reply: Reply)
    ensures
        destruction_answered(*outcome, reply),
{
    match outcome {
        Ok(_) => Reply { status: 200, body: ReplyBody::Done },
        Err(error) => match error {
            InstanceError::NotFound => error_reply(404, "not found"),
            _ => error_reply(500, &error.message()),
        },
    }
}

/// Whether a session is open to whoever holds its token, as its owner, and shows no picture yet.
pub open spec fn is_welcome(acl: &AclService, hub: &FrameHub, info: InstanceInfo) -> bool {
    let session = info.principal_session_id@;
    &&& acl.tokens().dom().contains(token_hash(info.principal_token@))
    &&& acl.tokens()[token_hash(info.principal_token@)]@ == session
    &&& acl.grant_of(session, session) matches Some(grant) && grant.role == Role::Owner
        && !grant.revoked && is_random_uuid(grant.id@)
    &&& hub.channels().dom().contains(session)
    &&& hub.channels()[session] is None
    &&& hub.sequences().dom().contains(session)
    &&& hub.sequences()[session] == 0
}

/// Opens the session of a new instance to whoever holds its token, and lets it show pictures.
pub fn welcome_instance(acl: &mut AclService, hub: &mut FrameHub, info: &InstanceInfo)
    requires
        old(acl).wf(),
        old(hub).wf(),
    ensures
        final(acl).wf(),
        final(hub).wf(),
        is_welcome(final(acl), final(hub), *info),
        final(acl).tokens() == old(acl).tokens().insert(
            token_hash(info.principal_token@),
            final(acl).tokens()[token_hash(info.principal_token@)],
        ),
        final(acl).grants_but(old(acl), info.principal_session_id@, info.principal_session_id@),
        final(hub).channels() == old(hub).channels().insert(info.principal_session_id@, None),
        final(hub).sequences() == old(hub).sequences().insert(info.principal_session_id@, 0),
{
    let principal_id = PrincipalId::new(&info.principal_session_id);
    acl.register_principal_token(principal_id.copy(), &info.principal_token);
    let _ = acl.grant(principal_id, SessionId::new(&info.principal_session_id), Role::Owner);
    hub.register_instance(&info.principal_session_id);
    assert(acl.tokens() =~= old(acl).tokens().insert(
        token_hash(info.principal_token@),
        acl.tokens()[token_hash(info.principal_token@)],
    ));
}

/// Whoever holds the token of a new instance may do with its session what an owner may.
pub proof fn law_token_opens_new_session(
    acl: &AclService,
    hub: &FrameHub,
    info: InstanceInfo,
    permission: Permission,
)
    requires
        is_welcome(acl, hub, info),
    ensures
        ({
            let res = acl.decides(
                token_hash(info.principal_token@),
                info.principal_session_id@,
                permission,
            );
            if role_allows(Role::Owner, permission) {
                res matches Ok(principal) && principal@ == info.principal_session_id@
            } else {
                res == Err::<PrincipalId, AuthError>(AuthError::Forbidden)
            }
        }),
{
}

/// An instance that is about to be made.
#[derive(Debug)]
pub struct PendingInstance {
    pub session_id: String,
    pub options: CreateInstanceOptions,
}

/// Starts on a request to make an instance: a place is set aside for it, or it is said how the
/// request is answered. The request may ask for a game, which goes before the one in the settings.
pub fn begin_create(
    manager: &mut InstanceManager,
    header: Option<&str>,
    admin_token: &str,
    rom_path: Option<String>,
) -> (res: Result<PendingInstance, Reply>)
    requires
        old(manager).wf(),
    ensures
        final(manager).wf(),
        final(manager).settings() == old(manager).settings(),
        final(manager).instances() == old(manager).instances(),
        ({
            let settings = old(manager).settings();
            if header_view(header) != Some(admin_token@) {
                &&& res matches Err(reply) && reply.is_error(401, "Unauthorized"@)
                &&& final(manager).pending() == old(manager).pending()
            } else if old(manager).instances().dom().len() + old(manager).pending()
                >= settings.max_instances {
                &&& res matches Err(reply) && reply.is_error(503, "max instances reached"@)
                &&& final(manager).pending() == old(manager).pending()
            } else {
                &&& final(manager).pending() == old(manager).pending() + 1
                &&& res matches Ok(pending) && is_random_uuid(pending.session_id@)
                    && is_random_uuid(pending.options.instance_id@) && follows(
                    pending.options,
                    settings,
                    rom_path,
                )
            }
        }),
{
    if !check_admin_token(header, admin_token) {
        return Err(unauthorized());
    }
    let session_id = new_uuid();
    match manager.begin_create(rom_path) {
        Ok(options) => Ok(PendingInstance { session_id, options }),
        Err(error) => Err(creation_failure(&error)),
    }
}

/// Finishes a request to make an instance, once its worker was started or not. An instance that was
/// made is open to whoever holds its token; one that was not leaves nothing behind.
pub fn finish_create(
    manager: &mut InstanceManager,
    acl: &mut AclService,
    hub: &mut FrameHub,
    instance_id: String,
    session_id: &str,
    started: Result<WorkerInfo, InstanceError>,
) -> (res: Result<InstanceInfo, Reply>)
    requires
        old(manager).wf(),
        old(manager).pending() > 0,
        old(acl).wf(),
        old(hub).wf(),
    ensures
        final(manager).wf(),
        final(acl).wf(),
        final(hub).wf(),
        final(manager).settings() == old(manager).settings(),
        final(manager).pending() == old(manager).pending() - 1,
        match started {
            Ok(worker) => res matches Ok(info) && {
                &&& info.id == instance_id
                &&& info.principal_session_id@ == session_id@
                &&& info.pid == worker.pid
                &&& info.socket_path == worker.socket_path
                &&& info.frame_socket_path == worker.frame_socket_path
                &&& is_random_uuid(info.principal_token@)
                &&& info.created_at.is_reading()
                &&& info.created_at.wf()
                &&& info.status == InstanceStatus::Running
                &&& final(manager).instances() == old(manager).instances().insert(
                    instance_id@,
                    info,
                )
                &&& is_welcome(final(acl), final(hub), info)
                &&& final(acl).tokens() == old(acl).tokens().insert(
                    token_hash(info.principal_token@),
                    final(acl).tokens()[token_hash(info.principal_token@)],
                )
                &&& final(acl).grants_but(old(acl), session_id@, session_id@)
                &&& final(hub).channels() == old(hub).channels().insert(session_id@, None)
                &&& final(hub).sequences() == old(hub).sequences().insert(session_id@, 0)
            },
            Err(error) => {
                &&& res matches Err(reply) && creation_failed(error, reply)
                &&& final(manager).instances() == old(manager).instances()
                &&& *final(acl) == *old(acl)
                &&& *final(hub) == *old(hub)
            },
        },
{
    match started {
        Ok(worker) => {
            let info = manager.complete_create(instance_id, session_id, worker);
            welcome_instance(acl, hub, &info);
            Ok(info)
        },
        Err(error) => {
            manager.abort_create();
            Err(creation_failure(&error))
        },
    }
}

/// Starts on a request to end an instance: the instance whose worker is to be stopped, or how the
/// request is answered.
pub fn begin_destroy(
    manager: &InstanceManager,
    header: Option<&str>,
    admin_token: &str,
    instance_id: &str,
) -> (res: Result<InstanceInfo, Reply>)
    requires
        manager.wf(),
    ensures
        if header_view(header) != Some(admin_token@) {
            res matches Err(reply) && reply.is_error(401, "Unauthorized"@)
        } else if !manager.instances().dom().contains(instance_id@) {
            res matches Err(reply) && reply.is_error(404, "not found"@)
        } else {
            res == Ok::<InstanceInfo, Reply>(manager.instances()[instance_id@])
        },
{
    if !check_admin_token(header, admin_token) {
        return Err(unauthorized());
    }
    match manager.begin_destroy(instance_id) {
        Ok(info) => Ok(info),
        Err(error) => Err(destruction_reply(&Err(error))),
    }
}

/// Finishes a request to end an instance, once its worker was stopped or not. An instance that was
/// ended shows no more pictures; one that was not stays as it is.
pub fn finish_destroy(
    manager: &mut InstanceManager,
    hub: &mut FrameHub,
    info: &InstanceInfo,
    stopped: Result<(), InstanceError>,
) -> (reply: Reply)
    requires
        old(manager).wf(),
        old(hub).wf(),
    ensures
        final(manager).wf(),
        final(hub).wf(),
        final(manager).settings() == old(manager).settings(),
        final(manager).pending() == old(manager).pending(),
        destruction_answered(stopped, reply),
        match stopped {
            Ok(_) => {
                &&& final(manager).instances() == old(manager).instances().remove(info.id@)
                &&& final(hub).channels() == old(hub).channels().remove(info.principal_session_id@)
                &&& final(hub).sequences() == old(hub).sequences().remove(
                    info.principal_session_id@,
                )
            },
            Err(_) => {
                &&& final(manager).instances() == old(manager).instances()
                &&& *final(hub) == *old(hub)
            },
        },
{
    let outcome = manager.finish_destroy(&info.id, stopped);
    if outcome.is_ok() {
        hub.unregister_instance(&info.principal_session_id);
    }
    destruction_reply(&outcome)
}

/// The instances, for whoever carries the admin token.
pub fn list_instances(manager: &InstanceManager, header: Option<&str>, admin_token: &str) -> (res:
    Result<Vec<InstanceInfo>, Reply>)
    requires
        manager.wf(),
    ensures
        if header_view(header) != Some(admin_token@) {
            res matches Err(reply) && reply.is_error(401, "Unauthorized"@)
        } else {
            res matches Ok(infos) && manager.lists(infos@)
        },
{
    if !check_admin_token(header, admin_token) {
        return Err(unauthorized());
    }
    Ok(manager.list())
}

/// One instance, for whoever carries the admin token.
pub fn get_instance(
    manager: &InstanceManager,
    header: Option<&str>,
    admin_token: &str,
    instance_id: &str,
) -> (res: Result<InstanceInfo, Reply>)
    requires
        manager.wf(),
    ensures
        if header_view(header) != Some(admin_token@) {
            res matches Err(reply) && reply.is_error(401, "Unauthorized"@)
        } else if !manager.instances().dom().contains(instance_id@) {
            res matches Err(reply) && reply.is_error(404, "not found"@)
        } else {
            res == Ok::<InstanceInfo, Reply>(manager.instances()[instance_id@])
        },
{
    if !check_admin_token(header, admin_token) {
        return Err(unauthorized());
    }
    match manager.get(instance_id) {
        Some(info) => Ok(info),
        None => Err(error_reply(404, "not found")),
    }
}

/// The counters of the streams, for whoever carries the admin token.
pub fn stream_metrics(metrics: &StreamMetrics, header: Option<&str>, admin_token: &str) -> (res:
    Result<MetricsSnapshot, Reply>)
    requires
        metrics.wf(),
    ensures
        if header_view(header) != Some(admin_token@) {
            res matches Err(reply) && reply.is_error(401, "Unauthorized"@)
        } else {
            res matches Ok(snapshot) && snapshot.of(metrics)
        },
{
    if !check_admin_token(header, admin_token) {
        return Err(unauthorized());
    }
    Ok(metrics.snapshot())
}

/// The picture in a packet: none where the pixel format is not known. It has no number and no time
/// yet.
pub fn frame_from_packet(packet: RawFramePacket) -> (frame: Option<RawFrame>)
    ensures
        frame == if packet.pixel_format == 0 || packet.pixel_format == 1 {
            Some(
                RawFrame {
                    width: packet.width,
                    height: packet.height,
                    pitch: packet.pitch,
                    pixel_format: if packet.pixel_format == 0 {
                        PixelFormat::XRGB8888
                    } else {
                        PixelFormat::RGB565
                    },
                    data: packet.data,
                    sequence: 0,
                    timestamp_ms: 0,
                },
            )
        } else {
            None
        },
{
    let pixel_format = if packet.pixel_format == 0 {
        PixelFormat::XRGB8888
    } else if packet.pixel_format == 1 {
        PixelFormat::RGB565
    } else {
        return None;
    };
    Some(
        RawFrame {
            width: packet.width,
            height: packet.height,
            pitch: packet.pitch,
            pixel_format,
            data: packet.data,
            sequence: 0,
            timestamp_ms: 0,
        },
    )
}

/// Where there is no place for an instance the answer is 503, where there is none to end it is 404,
/// and other failures are 500. What was ended is 200.
pub proof fn law_instance_answers_have_their_status(
    error: InstanceError,
    outcome: Result<(), InstanceError>,
    created: Reply,
    destroyed: Reply,
)
    requires
        creation_failed(error, created),
        destruction_answered(outcome, destroyed),
    ensures
        created.status == if error is MaxInstancesReached {
            503u16
        } else {
            500
        },
        destroyed.status == if outcome is Ok {
            200u16
        } else if outcome->Err_0 is NotFound {
            404
        } else {
            500
        },
        destroyed.body is Done <==> outcome is Ok,
{
}

/// A new session belongs to its principal, whose token opens it, and has shown no picture yet.
pub proof fn law_new_session_starts_empty(acl: &AclService, hub: &FrameHub, info: InstanceInfo)
    requires
        is_welcome(acl, hub, info),
    ensures
        ({
            let session = info.principal_session_id@;
            let hash = token_hash(info.principal_token@);
            &&& acl.tokens().dom().contains(hash) && acl.tokens()[hash]@ == session
            &&& acl.grant_of(session, session) is Some
            &&& acl.grant_of(session, session)->0.role == Role::Owner
            &&& !acl.grant_of(session, session)->0.revoked
            &&& hub.channels().dom().contains(session) && hub.channels()[session] is None
            &&& hub.sequences().dom().contains(session) && hub.sequences()[session] == 0
        }),
{
}

} // verus!
