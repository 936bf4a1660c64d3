use mgba_gateway::config::GatewayConfig;
use mgba_gateway::instances::{
    CreateInstanceOptions, DockerCliDriver, InstanceBackend, InstanceError, InstanceInfo,
    InstanceManager, InstanceStatus, ManagedInstanceInfo, WorkerInfo, health_check_interval,
};
use std::cell::RefCell;

#[derive(Default)]
struct FakeBackend {
    created: RefCell<Vec<String>>,
    roms: RefCell<Vec<Option<String>>>,
    fail_create: RefCell<bool>,
    fail_stop: RefCell<bool>,
    stopped: RefCell<Vec<String>>,
}

impl InstanceBackend for FakeBackend {
    fn create_instance(&self, opts: CreateInstanceOptions) -> Result<WorkerInfo, InstanceError> {
        if *self.fail_create.borrow() {
            return Err(InstanceError::Docker("start failed".to_string()));
        }
        self.created.borrow_mut().push(opts.instance_id.clone());
        self.roms.borrow_mut().push(opts.rom_path.clone());
        Ok(start(&opts))
    }
    fn stop_instance(&self, instance_id: &str) -> Result<(), InstanceError> {
        if *self.fail_stop.borrow() {
            return Err(InstanceError::Docker("stop failed".to_string()));
        }
        self.stopped.borrow_mut().push(instance_id.to_string());
        Ok(())
    }
    fn list_managed_instances(&self) -> Result<Vec<ManagedInstanceInfo>, InstanceError> {
        if *self.fail_create.borrow() {
            return Err(InstanceError::Docker("list failed".to_string()));
        }
        Ok(Vec::new())
    }
    fn inspect_running(&self, _instance_id: &str) -> Result<bool, InstanceError> {
        Ok(true)
    }
}

fn manager(max_instances: u16) -> InstanceManager {
    InstanceManager::new(GatewayConfig {
        max_instances,
        libretro_core_path: "/tmp/core.so".to_string(),
        worker_socket_dir: "/tmp/grokemon-workers".to_string(),
        ..GatewayConfig::default()
    })
}

fn start(options: &CreateInstanceOptions) -> WorkerInfo {
    WorkerInfo {
        pid: 42,
        socket_path: options.socket_path.clone(),
        frame_socket_path: options.frame_socket_path.clone(),
    }
}

fn create(manager: &mut InstanceManager, session: &str) -> Result<InstanceInfo, InstanceError> {
    let options = manager.begin_create(None)?;
    let worker = start(&options);
    Ok(manager.complete_create(options.instance_id, session, worker))
}

#[test]
fn create_and_destroy_tracks_lifecycle() {
    let backend = FakeBackend::default();
    let mut manager = manager(20);
    let info = manager.create(&backend, "session-a", None).unwrap();
    assert_eq!(info.principal_session_id, "session-a");
    assert!(!info.principal_token.is_empty());
    assert_eq!(*backend.created.borrow(), vec![info.id.clone()]);
    assert_eq!(manager.list().len(), 1);
    manager.destroy(&backend, &info.id).unwrap();
    assert!(manager.list().is_empty());
    assert_eq!(backend.stopped.borrow().len(), 1);
}

#[test]
fn instances_are_described() {
    let mut manager = manager(20);
    let info = create(&mut manager, "session-a").unwrap();
    assert_eq!(info.pid, 42);
    assert_eq!(info.status, InstanceStatus::Running);
    assert_eq!(info.socket_path, format!("/tmp/grokemon-workers/{}.sock", info.id));
    assert_eq!(
        info.frame_socket_path,
        format!("/tmp/grokemon-workers/{}.frames.sock", info.id)
    );
    assert_eq!(manager.begin_destroy(&info.id).unwrap(), info);
    manager.finish_destroy(&info.id, Ok(())).unwrap();
    assert!(manager.list().is_empty());
}

#[test]
fn enforces_twenty_instance_limit() {
    let backend = FakeBackend::default();
    let mut manager = manager(20);
    for idx in 0..20 {
        manager.create(&backend, &format!("session-{idx}"), None).unwrap();
    }
    assert_eq!(
        manager.create(&backend, "too-many", None).unwrap_err(),
        InstanceError::MaxInstancesReached
    );
    assert_eq!(backend.created.borrow().len(), 20);
    let mut ids = backend.created.borrow().clone();
    ids.sort();
    let listed: Vec<String> = manager.list().into_iter().map(|info| info.id).collect();
    assert_eq!(listed, ids);
}

#[test]
fn concurrent_creates_respect_instance_limit() {
    let mut manager = manager(1);
    let first = manager.begin_create(None);
    let second = manager.begin_create(None);
    assert!(first.is_ok());
    assert_eq!(second.unwrap_err(), InstanceError::MaxInstancesReached);
}

#[test]
fn failed_destroy_keeps_instance_tracked() {
    let backend = FakeBackend::default();
    let mut manager = InstanceManager::new(GatewayConfig::default());
    let info = manager.create(&backend, "session-a", None).unwrap();
    *backend.fail_stop.borrow_mut() = true;
    assert_eq!(
        manager.destroy(&backend, &info.id).unwrap_err(),
        InstanceError::Docker("stop failed".to_string())
    );
    assert!(manager.get(&info.id).is_some());
}

#[test]
fn a_worker_that_fails_to_start_is_not_tracked() {
    let backend = FakeBackend::default();
    *backend.fail_create.borrow_mut() = true;
    let mut manager = manager(1);
    assert_eq!(
        manager.create(&backend, "session-a", None).unwrap_err(),
        InstanceError::Docker("start failed".to_string())
    );
    assert!(manager.list().is_empty());
    assert_eq!(manager.pending_creates(), 0);
    *backend.fail_create.borrow_mut() = false;
    assert!(manager.create(&backend, "session-a", None).is_ok());
    assert_eq!(
        manager.destroy(&backend, "none").unwrap_err(),
        InstanceError::NotFound
    );
}

#[test]
fn a_failed_create_gives_its_place_back() {
    let mut manager = manager(1);
    let options = manager.begin_create_as("one".to_string(), None).unwrap();
    assert_eq!(options.instance_id, "one");
    assert_eq!(options.socket_path, "/tmp/grokemon-workers/one.sock");
    assert_eq!(options.core_path, "/tmp/core.so");
    assert_eq!(options.rom_path, None);
    assert_eq!(manager.pending_creates(), 1);
    manager.abort_create();
    assert_eq!(manager.pending_creates(), 0);
    assert!(create(&mut manager, "session-a").is_ok());
}

#[test]
fn the_worker_is_given_the_rom_that_was_asked_for() {
    let backend = FakeBackend::default();
    let mut manager = InstanceManager::new(GatewayConfig {
        rom_path: Some("/roms/usual.gba".to_string()),
        ..GatewayConfig::default()
    });
    manager.create(&backend, "session-a", None).unwrap();
    let asked = Some("/roms/other.gba".to_string());
    manager.create(&backend, "session-b", asked.clone()).unwrap();
    assert_eq!(
        *backend.roms.borrow(),
        vec![Some("/roms/usual.gba".to_string()), asked.clone()]
    );
    let mut manager = InstanceManager::new(GatewayConfig::default());
    manager.create(&backend, "session-c", asked.clone()).unwrap();
    manager.create(&backend, "session-d", None).unwrap();
    assert_eq!(backend.roms.borrow()[2..], [asked, None]);
}

#[test]
fn a_backend_that_cannot_list_is_told_of() {
    let backend = FakeBackend::default();
    let manager = manager(1);
    assert_eq!(manager.reconstruct(&backend), Ok(()));
    *backend.fail_create.borrow_mut() = true;
    assert_eq!(
        manager.reconstruct(&backend),
        Err(InstanceError::Docker("list failed".to_string()))
    );
}

#[test]
fn unknown_instances_are_not_found() {
    let manager = manager(20);
    assert_eq!(manager.begin_destroy("none").unwrap_err(), InstanceError::NotFound);
    assert_eq!(manager.get("none"), None);
}

#[test]
fn sessions_lead_to_their_instances() {
    let mut manager = manager(20);
    let a = create(&mut manager, "session-a").unwrap();
    let b = create(&mut manager, "session-b").unwrap();
    assert_ne!(a.id, b.id);
    assert_ne!(a.principal_token, b.principal_token);
    assert_eq!(manager.find_session("session-b"), Ok(b));
    assert_eq!(
        manager.find_session("session-c"),
        Err("no instance for principal session session-c".to_string())
    );
}

#[test]
fn identifiers_are_random_uuids() {
    let mut manager = manager(20);
    let info = create(&mut manager, "session-a").unwrap();
    for id in [&info.id, &info.principal_token] {
        let parsed = uuid::Uuid::parse_str(id).unwrap();
        assert_eq!(parsed.get_version_num(), 4);
        assert_eq!(&parsed.to_string(), id);
    }
    let now = chrono::Utc::now().timestamp();
    assert!((now - info.created_at.secs).abs() <= 60);
}

#[test]
fn instance_errors_have_words() {
    assert_eq!(InstanceError::MaxInstancesReached.message(), "max instances reached");
    assert_eq!(InstanceError::UnsafeCapturePath.message(), "unsafe capture path");
    assert_eq!(
        InstanceError::Docker("no".to_string()).message(),
        "docker command failed: no"
    );
    assert_eq!(InstanceError::NotFound.message(), "instance not found");
}

#[test]
fn the_driver_starts_nothing() {
    let mut manager = manager(20);
    let options = manager.begin_create_as("one".to_string(), None).unwrap();
    let path = options.socket_path.clone();
    let worker = DockerCliDriver.create_instance(options).unwrap();
    assert_eq!(worker.pid, 0);
    assert_eq!(worker.socket_path, path);
    assert_eq!(DockerCliDriver.stop_instance("one"), Ok(()));
    assert_eq!(DockerCliDriver.list_managed_instances(), Ok(vec![]));
    assert_eq!(DockerCliDriver.inspect_running("one"), Ok(false));
    assert_eq!(health_check_interval(), 10);
}
