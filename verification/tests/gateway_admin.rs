use mgba_gateway::auth::{AclService, Permission, SessionId};
use mgba_gateway::config::GatewayConfig;
use mgba_gateway::gateway::admin::{
    begin_create, begin_destroy, creation_failure, finish_create, finish_destroy,
    frame_from_packet, get_instance, list_instances, stream_metrics,
};
use mgba_gateway::gateway::api::{Reply, ReplyBody, SessionRequest, begin_command, plan_request};
use mgba_gateway::instances::{InstanceError, InstanceInfo, InstanceManager, WorkerInfo};
use mgba_gateway::ipc::transport::RawFramePacket;
use mgba_gateway::streaming::{FrameHub, InputLogBus, PixelFormat, StreamMetrics};

const TOKEN: &str = "test-token";

struct Admin {
    manager: InstanceManager,
    acl: AclService,
    hub: FrameHub,
}

fn admin(max_instances: u16) -> Admin {
    Admin {
        manager: InstanceManager::new(GatewayConfig {
            admin_token: TOKEN.to_string(),
            max_instances,
            libretro_core_path: "/tmp/core.so".to_string(),
            worker_socket_dir: "/tmp/test-workers".to_string(),
            ..GatewayConfig::default()
        }),
        acl: AclService::new(),
        hub: FrameHub::new(),
    }
}

fn create(a: &mut Admin, token: Option<&str>) -> Result<InstanceInfo, Reply> {
    let pending = begin_create(&mut a.manager, token, TOKEN, None)?;
    let worker = WorkerInfo {
        pid: 42,
        socket_path: pending.options.socket_path.clone(),
        frame_socket_path: pending.options.frame_socket_path.clone(),
    };
    finish_create(
        &mut a.manager,
        &mut a.acl,
        &mut a.hub,
        pending.options.instance_id,
        &pending.session_id,
        Ok(worker),
    )
}

fn error_of(reply: &Reply) -> (u16, &str) {
    match &reply.body {
        ReplyBody::Error(why) => (reply.status, why.as_str()),
        other => panic!("expected an error, got {other:?}"),
    }
}

#[test]
fn missing_admin_token_returns_401() {
    let mut a = admin(20);
    assert_eq!(error_of(&create(&mut a, None).unwrap_err()), (401, "Unauthorized"));
}

#[test]
fn wrong_admin_token_returns_401() {
    let mut a = admin(20);
    assert_eq!(create(&mut a, Some("wrong-token")).unwrap_err().status, 401);
    assert_eq!(a.manager.pending_creates(), 0);
}

#[test]
fn create_instance_with_valid_token_returns_200() {
    let mut a = admin(20);
    let info = create(&mut a, Some(TOKEN)).unwrap();
    assert!(!info.id.is_empty());
    assert!(!info.principal_token.is_empty());
}

#[test]
fn list_instances_returns_empty_array_initially() {
    let a = admin(20);
    assert!(list_instances(&a.manager, Some(TOKEN), TOKEN).unwrap().is_empty());
    assert_eq!(list_instances(&a.manager, None, TOKEN).unwrap_err().status, 401);
}

#[test]
fn get_nonexistent_instance_returns_404() {
    let a = admin(20);
    let reply = get_instance(&a.manager, Some(TOKEN), TOKEN, "nonexistent-id").unwrap_err();
    assert_eq!(error_of(&reply), (404, "not found"));
    assert_eq!(get_instance(&a.manager, None, TOKEN, "x").unwrap_err().status, 401);
}

#[test]
fn delete_nonexistent_instance_returns_404() {
    let a = admin(20);
    let reply = begin_destroy(&a.manager, Some(TOKEN), TOKEN, "nonexistent-id").unwrap_err();
    assert_eq!(error_of(&reply), (404, "not found"));
    assert_eq!(begin_destroy(&a.manager, Some("no"), TOKEN, "x").unwrap_err().status, 401);
}

#[test]
fn max_instances_reached_returns_503() {
    let mut a = admin(1);
    assert!(create(&mut a, Some(TOKEN)).is_ok());
    let second = create(&mut a, Some(TOKEN)).unwrap_err();
    assert_eq!(error_of(&second), (503, "max instances reached"));
}

#[test]
fn stream_metrics_requires_token() {
    let mut metrics = StreamMetrics::new();
    metrics.record_produced("i1", 10, true);
    assert_eq!(stream_metrics(&metrics, None, TOKEN).unwrap_err().status, 401);
    let snapshot = stream_metrics(&metrics, Some(TOKEN), TOKEN).unwrap();
    assert_eq!(snapshot.instances.len(), 1);
    assert_eq!(snapshot.total_produced_bytes, 10);
}

#[test]
fn full_create_get_destroy_lifecycle() {
    let mut a = admin(20);
    let info = create(&mut a, Some(TOKEN)).unwrap();
    let found = get_instance(&a.manager, Some(TOKEN), TOKEN, &info.id).unwrap();
    assert_eq!(found, info);
    assert_eq!(a.hub.registered_instances(), vec![info.principal_session_id.clone()]);
    let found = begin_destroy(&a.manager, Some(TOKEN), TOKEN, &info.id).unwrap();
    let reply = finish_destroy(&mut a.manager, &mut a.hub, &found, Ok(()));
    assert_eq!(reply.status, 200);
    assert!(matches!(reply.body, ReplyBody::Done));
    assert!(a.hub.registered_instances().is_empty());
    let gone = get_instance(&a.manager, Some(TOKEN), TOKEN, &info.id).unwrap_err();
    assert_eq!(gone.status, 404);
}

#[test]
fn admin_created_principal_token_authorizes_session_command() {
    let mut a = admin(20);
    let info = create(&mut a, Some(TOKEN)).unwrap();
    let mut log = InputLogBus::new();
    let pending = begin_command(
        &a.acl,
        &mut log,
        Some(&info.principal_token),
        None,
        &info.principal_session_id,
        plan_request(SessionRequest::Reset),
    )
    .unwrap();
    assert_eq!(pending.command, "core.reset<|END|>");
    assert_eq!(pending.session_id.as_str(), info.principal_session_id);
    assert!(
        a.acl
            .check_token(
                &info.principal_token,
                &SessionId::new(&info.principal_session_id),
                Permission::AdminLifecycle
            )
            .is_err()
    );
}

#[test]
fn a_worker_that_does_not_start_leaves_nothing_behind() {
    let mut a = admin(1);
    let pending = begin_create(&mut a.manager, Some(TOKEN), TOKEN, None).unwrap();
    let reply = finish_create(
        &mut a.manager,
        &mut a.acl,
        &mut a.hub,
        pending.options.instance_id,
        &pending.session_id,
        Err(InstanceError::Docker("no worker".to_string())),
    )
    .unwrap_err();
    assert_eq!(error_of(&reply), (500, "docker command failed: no worker"));
    assert!(a.hub.registered_instances().is_empty());
    assert!(create(&mut a, Some(TOKEN)).is_ok());
    assert_eq!(
        error_of(&creation_failure(&InstanceError::MaxInstancesReached)),
        (503, "max instances reached")
    );
}

#[test]
fn a_rom_path_reaches_the_worker() {
    let mut a = admin(20);
    let asked = Some("/roms/asked.gba".to_string());
    let pending = begin_create(&mut a.manager, Some(TOKEN), TOKEN, asked.clone()).unwrap();
    assert_eq!(pending.options.rom_path, asked);
    let pending = begin_create(&mut a.manager, Some(TOKEN), TOKEN, None).unwrap();
    assert_eq!(pending.options.rom_path, None);
    a.manager = InstanceManager::new(GatewayConfig {
        rom_path: Some("/roms/usual.gba".to_string()),
        ..GatewayConfig::default()
    });
    let pending = begin_create(&mut a.manager, Some(TOKEN), TOKEN, asked.clone()).unwrap();
    assert_eq!(pending.options.rom_path, asked);
    let pending = begin_create(&mut a.manager, Some(TOKEN), TOKEN, None).unwrap();
    assert_eq!(pending.options.rom_path.as_deref(), Some("/roms/usual.gba"));
}

#[test]
fn a_worker_that_does_not_stop_stays() {
    let mut a = admin(20);
    let info = create(&mut a, Some(TOKEN)).unwrap();
    let stopped = Err(InstanceError::Docker("busy".to_string()));
    let reply = finish_destroy(&mut a.manager, &mut a.hub, &info, stopped);
    assert_eq!(error_of(&reply), (500, "docker command failed: busy"));
    assert!(get_instance(&a.manager, Some(TOKEN), TOKEN, &info.id).is_ok());
    assert_eq!(a.hub.registered_instances().len(), 1);
    let stopped = Err(InstanceError::NotFound);
    let reply = finish_destroy(&mut a.manager, &mut a.hub, &info, stopped);
    assert_eq!(error_of(&reply), (404, "not found"));
}

fn packet(pixel_format: u8) -> RawFramePacket {
    RawFramePacket {
        width: 2,
        height: 1,
        pitch: 8,
        pixel_format,
        data: vec![1, 2, 3, 4, 5, 6, 7, 8],
    }
}

#[test]
fn frame_ingest_pushes_socket_frames_into_hub() {
    let mut hub = FrameHub::new();
    hub.register_instance("session-a");
    let sent = packet(0).encode();
    let received = RawFramePacket::decode(&sent).unwrap();
    hub.push_frame("session-a", frame_from_packet(received).unwrap(), 9);
    let frame = hub.latest_frame("session-a").unwrap();
    assert_eq!(frame.width, 2);
    assert_eq!(frame.height, 1);
    assert_eq!(frame.pitch, 8);
    assert_eq!(frame.pixel_format, PixelFormat::XRGB8888);
    assert_eq!(frame.data, vec![1, 2, 3, 4, 5, 6, 7, 8]);
    assert_eq!(frame.sequence, 1);
    assert_eq!(frame.timestamp_ms, 9);
    assert_eq!(frame_from_packet(packet(1)).unwrap().pixel_format, PixelFormat::RGB565);
    assert!(frame_from_packet(packet(2)).is_none());
}
