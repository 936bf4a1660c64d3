//! The emulator instances that run, and how many may.
use crate::config::GatewayConfig;
use crate::ids::{is_random_uuid, new_uuid};
use crate::string_map::{StringMap, among};
use crate::text::{join2, join3, text_eq, text_less};
use crate::time::Timestamp;
use vstd::prelude::*;

verus! {

/// How an instance is doing.
#[derive(Debug, Clone, Copy, PartialEq, Eq, Structural)]
pub enum InstanceStatus {
    Starting,
    Running,
    Error,
    Stopped,
}

/// An instance that runs.
#[derive(Debug, PartialEq, Eq)]
pub struct InstanceInfo {
    pub id: String,
    pub principal_session_id: String,
    pub pid: u32,
    pub socket_path: String,
    pub frame_socket_path: String,
    pub principal_token: String,
    pub created_at: Timestamp,
    pub status: InstanceStatus,
}

impl InstanceInfo {
    /// A copy of the description.
    pub fn copy(&self) -> (copy: InstanceInfo)
        ensures
            copy == *self,
    {
        InstanceInfo {
            id: self.id.clone(),
            principal_session_id: self.principal_session_id.clone(),
            pid: self.pid,
            socket_path: self.socket_path.clone(),
            frame_socket_path: self.frame_socket_path.clone(),
            principal_token: self.principal_token.clone(),
            created_at: self.created_at,
            status: self.status,
        }
    }
}

/// What a worker is started with.
#[derive(Debug)]
pub struct CreateInstanceOptions {
    pub instance_id: String,
    pub socket_path: String,
    pub frame_socket_path: String,
    pub core_path: String,
    pub rom_path: Option<String>,
}

/// A worker that was started.
#[derive(Debug, PartialEq, Eq)]
pub struct WorkerInfo {
    pub pid: u32,
    pub socket_path: String,
    pub frame_socket_path: String,
}

/// A worker that a backend keeps track of.
#[derive(Debug, PartialEq, Eq)]
pub struct ManagedInstanceInfo {
    pub instance_id: String,
    pub pid: u32,
    pub socket_path: String,
}

/// Why an instance could not be made or ended.
#[derive(Debug, PartialEq, Eq)]
pub enum InstanceError {
    /// As many instances run as may.
    MaxInstancesReached,
    /// Captures would be written where they must not.
    UnsafeCapturePath,
    /// The backend failed.
    Docker(String),
    /// There is no such instance.
    NotFound,
}

impl InstanceError {
    /// The error in words.
    pub open spec fn words(self) -> Seq<char> {
        match self {
            InstanceError::MaxInstancesReached => "max instances reached"@,
            InstanceError::UnsafeCapturePath => "unsafe capture path"@,
            InstanceError::Docker(why) => "docker command failed: "@ + why@,
            InstanceError::NotFound => "instance not found"@,
        }
    }

    /// The error in words.
    pub fn message(&self) -> (text: String)
        ensures
            text@ == self.words(),
    {
        match self {
            InstanceError::MaxInstancesReached => "max instances reached".to_owned(),
            InstanceError::UnsafeCapturePath => "unsafe capture path".to_owned(),
            InstanceError::Docker(why) => join2("docker command failed: ", why),
            InstanceError::NotFound => "instance not found".to_owned(),
        }
    }
}

/// How workers are started and stopped.
pub trait InstanceBackend {
    /// Starts a worker.
    fn create_instance(&self, opts: CreateInstanceOptions) -> Result<WorkerInfo, InstanceError>;

    /// Stops the worker of an instance.
    fn stop_instance(&self, instance_id: &str) -> Result<(), InstanceError>;

    /// The workers that the backend keeps track of.
    fn list_managed_instances(&self) -> Result<Vec<ManagedInstanceInfo>, InstanceError>;

    /// Whether the worker of an instance runs.
    fn inspect_running(&self, instance_id: &str) -> Result<bool, InstanceError>;
}

/// Where the command socket of an instance lies.
pub open spec fn socket_path(dir: Seq<char>, id: Seq<char>) -> Seq<char> {
    dir + "/"@ + id + ".sock"@
}

/// Where the frame socket of an instance lies.
pub open spec fn frame_socket_path(dir: Seq<char>, id: Seq<char>) -> Seq<char> {
    dir + "/"@ + id + ".frames.sock"@
}

/// The game that a worker starts with: the one that was asked for, else the one in the settings.
pub open spec fn chosen_rom(asked: Option<String>, settings: GatewayConfig) -> Option<String> {
    if asked is Some {
        asked
    } else {
        settings.rom_path
    }
}

/// Whether a worker is started with what the settings say, and with the game that was asked for.
pub open spec fn follows(
    options: CreateInstanceOptions,
    settings: GatewayConfig,
    rom_path: Option<String>,
) -> bool {
    let dir = settings.worker_socket_dir@;
    &&& options.socket_path@ == socket_path(dir, options.instance_id@)
    &&& options.frame_socket_path@ == frame_socket_path(dir, options.instance_id@)
    &&& options.core_path == settings.libretro_core_path
    &&& options.rom_path == chosen_rom(rom_path, settings)
}

/// The instances that run, and how many are about to.
#[derive(Debug)]
pub struct InstanceManager {
    config: GatewayConfig,
    instances: StringMap<InstanceInfo>,
    pending_creates: usize,
}

impl InstanceManager {
    /// The instances that run, by name.
    pub closed spec fn instances(&self) -> Map<Seq<char>, InstanceInfo> {
        self.instances@
    }

    /// How many instances are about to run.
    pub closed spec fn pending(&self) -> nat {
        self.pending_creates as nat
    }

    /// The settings.
    pub closed spec fn settings(&self) -> GatewayConfig {
        self.config
    }

    /// Each instance stands under its name, and no more run or are about to than may.
    pub closed spec fn wf(&self) -> bool {
        &&& self.instances.wf()
        &&& self.instances@.dom().finite()
        &&& self.instances@.dom().len() + self.pending_creates <= self.config.max_instances
        &&& forall|id: Seq<char>| #[trigger]
            self.instances@.dom().contains(id) ==> self.instances@[id].id@ == id
    }

    /// There are never more instances than may run, whatever is about to be made.
    pub proof fn law_limit_holds(&self)
        requires
            self.wf(),
        ensures
            self.instances().dom().finite(),
            self.instances().dom().len() + self.pending() <= self.settings().max_instances,
    {
    }

    /// Whether these are all instances, in the order of their names.
    pub open spec fn lists(&self, infos: Seq<InstanceInfo>) -> bool {
        &&& infos.len() == self.instances().dom().len()
        &&& forall|i: int, j: int|
            0 <= i < j < infos.len() ==> text_less(
                (#[trigger] infos[i]).id@,
                (#[trigger] infos[j]).id@,
            )
        &&& forall|i: int|
            0 <= i < infos.len() ==> self.instances().dom().contains((#[trigger] infos[i]).id@)
                && self.instances()[infos[i].id@] == infos[i]
        &&& forall|id: Seq<char>| #[trigger]
            self.instances().dom().contains(id) ==> infos.contains(self.instances()[id])
    }

    /// No instances.
    pub fn new(config: GatewayConfig) -> (manager: Self)
        ensures
            manager.wf(),
            manager.settings() == config,
            manager.instances() == Map::<Seq<char>, InstanceInfo>::empty(),
            manager.pending() == 0,
    {
        InstanceManager { config, instances: StringMap::new(), pending_creates: 0 }
    }

    /// The settings.
    pub fn config(&self) -> (config: &GatewayConfig)
        ensures
            *config == self.settings(),
    {
        &self.config
    }

    /// Sets a place aside for an instance with a given name, and says what its worker is started
    /// with. A game that is asked for goes before the one in the settings. There is no place where as
    /// many run, or are about to, as may.
    pub fn begin_create_as(&mut self, instance_id: String, rom_path: Option<String>) -> (res: Result<
        CreateInstanceOptions,
        InstanceError,
    >)
        requires
            old(self).wf(),
        ensures
            final(self).wf(),
            final(self).settings() == old(self).settings(),
            final(self).instances() == old(self).instances(),
            ({
                let settings = old(self).settings();
                if old(self).instances().dom().len() + old(self).pending()
                    >= settings.max_instances {
                    &&& res == Err::<CreateInstanceOptions, InstanceError>(
                        InstanceError::MaxInstancesReached,
                    )
                    &&& final(self).pending() == old(self).pending()
                } else {
                    &&& final(self).pending() == old(self).pending() + 1
                    &&& res matches Ok(options) && options.instance_id == instance_id && follows(
                        options,
                        settings,
                        rom_path,
                    )
                }
            }),
    {
        let current: usize = self.instances.len();
        if current + self.pending_creates >= self.config.max_instances as usize {
            return Err(InstanceError::MaxInstancesReached);
        }
        self.pending_creates = self.pending_creates + 1;
        let base = join3(&self.config.worker_socket_dir, "/", &instance_id);
        let rom_path = match rom_path {
            Some(path) => Some(path),
            None => match &self.config.rom_path {
                Some(path) => Some(path.clone()),
                None => None,
            },
        };
        Ok(
            CreateInstanceOptions {
                socket_path: join2(&base, ".sock"),
                frame_socket_path: join2(&base, ".frames.sock"),
                core_path: self.config.libretro_core_path.clone(),
                rom_path,
                instance_id,
            },
        )
    }

    /// Sets a place aside for an instance with a new name.
    pub fn begin_create(&mut self, rom_path: Option<String>) -> (res: Result<
        CreateInstanceOptions,
        InstanceError,
    >)
        requires
            old(self).wf(),
        ensures
            final(self).wf(),
            final(self).settings() == old(self).settings(),
            final(self).instances() == old(self).instances(),
            ({
                let settings = old(self).settings();
                if old(self).instances().dom().len() + old(self).pending()
                    >= settings.max_instances {
                    &&& res == Err::<CreateInstanceOptions, InstanceError>(
                        InstanceError::MaxInstancesReached,
                    )
                    &&& final(self).pending() == old(self).pending()
                } else {
                    &&& final(self).pending() == old(self).pending() + 1
                    &&& res matches Ok(options) && is_random_uuid(options.instance_id@) && follows(
                        options,
                        settings,
                        rom_path,
                    )
                }
            }),
    {
        self.begin_create_as(new_uuid(), rom_path)
    }

    /// Puts an instance whose worker was started into the place that was set aside for it.
    pub fn complete_create_as(
        &mut self,
        instance_id: String,
        session_id: &str,
        worker: WorkerInfo,
        principal_token: String,
        created_at: Timestamp,
    ) -> (info: InstanceInfo)
        requires
            old(self).wf(),
            old(self).pending() > 0,
        ensures
            final(self).wf(),
            final(self).settings() == old(self).settings(),
            final(self).pending() == old(self).pending() - 1,
            final(self).instances() == old(self).instances().insert(instance_id@, info),
            info.id == instance_id,
            info.principal_session_id@ == session_id@,
            info.pid == worker.pid,
            info.socket_path == worker.socket_path,
            info.frame_socket_path == worker.frame_socket_path,
            info.principal_token == principal_token,
            info.created_at == created_at,
            info.status == InstanceStatus::Running,
    {
        let key = instance_id.clone();
        let info = InstanceInfo {
            id: instance_id,
            principal_session_id: session_id.to_owned(),
            pid: worker.pid,
            socket_path: worker.socket_path,
            frame_socket_path: worker.frame_socket_path,
            principal_token,
            created_at,
            status: InstanceStatus::Running,
        };
        let _ = self.instances.insert(&key, info.copy());
        self.pending_creates = self.pending_creates - 1;
        info
    }

    /// Puts an instance whose worker was started into the place that was set aside for it, with a
    /// new token.
    pub fn complete_create(&mut self, instance_id: String, session_id: &str, worker: WorkerInfo) -> (
    info: InstanceInfo)
        requires
            old(self).wf(),
            old(self).pending() > 0,
        ensures
            final(self).wf(),
            final(self).settings() == old(self).settings(),
            final(self).pending() == old(self).pending() - 1,
            final(self).instances() == old(self).instances().insert(instance_id@, info),
            info.id == instance_id,
            info.principal_session_id@ == session_id@,
            info.pid == worker.pid,
            info.socket_path == worker.socket_path,
            info.frame_socket_path == worker.frame_socket_path,
            is_random_uuid(info.principal_token@),
            info.created_at.is_reading(),
            info.created_at.wf(),
            info.status == InstanceStatus::Running,
    {
        self.complete_create_as(instance_id, session_id, worker, new_uuid(), Timestamp::now())
    }

    /// Gives up the place that was set aside for an instance whose worker could not be started.
    pub fn abort_create(&mut self)
        requires
            old(self).wf(),
            old(self).pending() > 0,
        ensures
            final(self).wf(),
            final(self).settings() == old(self).settings(),
            final(self).instances() == old(self).instances(),
            final(self).pending() == old(self).pending() - 1,
    {
        self.pending_creates = self.pending_creates - 1;
    }

    /// Makes an instance for a session, with a worker that the backend starts. Nothing changes where
    /// as many instances run, or are about to, as may, and where the backend fails.
    pub fn create<B: InstanceBackend>(
        &mut self,
        backend: &B,
        session_id: &str,
        rom_path: Option<String>,
    ) -> (res: Result<InstanceInfo, InstanceError>)
        requires
            old(self).wf(),
        ensures
            final(self).wf(),
            final(self).settings() == old(self).settings(),
            final(self).pending() == old(self).pending(),
            ({
                let settings = old(self).settings();
                if old(self).instances().dom().len() + old(self).pending()
                    >= settings.max_instances {
                    res == Err::<InstanceInfo, InstanceError>(InstanceError::MaxInstancesReached)
                } else {
                    exists|
                        options: CreateInstanceOptions,
                        started: Result<WorkerInfo, InstanceError>,
                    |
                        #[trigger] call_ensures(B::create_instance, (backend, options), started)
                            && is_random_uuid(options.instance_id@) && follows(
                            options,
                            settings,
                            rom_path,
                        ) && match started {
                            Ok(worker) => res matches Ok(info) && info.id == options.instance_id
                                && info.pid == worker.pid && info.socket_path == worker.socket_path
                                && info.frame_socket_path == worker.frame_socket_path,
                            Err(error) => res == Err::<InstanceInfo, InstanceError>(error),
                        }
                }
            }),
            match res {
                Ok(info) => {
                    &&& final(self).instances() == old(self).instances().insert(info.id@, info)
                    &&& is_random_uuid(info.id@)
                    &&& info.principal_session_id@ == session_id@
                    &&& is_random_uuid(info.principal_token@)
                    &&& info.created_at.is_reading()
                    &&& info.created_at.wf()
                    &&& info.status == InstanceStatus::Running
                },
                Err(_) => final(self).instances() == old(self).instances(),
            },
    {
        let options = match self.begin_create(rom_path) {
            Ok(options) => options,
            Err(error) => {
                return Err(error);
            },
        };
        let ghost asked = options;
        let instance_id = options.instance_id.clone();
        let started = backend.create_instance(options);
        assert(call_ensures(B::create_instance, (backend, asked), started));
        match started {
            Ok(worker) => Ok(self.complete_create(instance_id, session_id, worker)),
            Err(error) => {
                self.abort_create();
                Err(error)
            },
        }
    }

    /// Ends an instance, once the backend has stopped its worker. Nothing changes where the backend
    /// fails.
    pub fn destroy<B: InstanceBackend>(&mut self, backend: &B, instance_id: &str) -> (res: Result<
        (),
        InstanceError,
    >)
        requires
            old(self).wf(),
        ensures
            final(self).wf(),
            final(self).settings() == old(self).settings(),
            final(self).pending() == old(self).pending(),
            if old(self).instances().dom().contains(instance_id@) {
                exists|id: &str| #[trigger] call_ensures(B::stop_instance, (backend, id), res) && id@
                    == old(self).instances()[instance_id@].id@
            } else {
                res == Err::<(), InstanceError>(InstanceError::NotFound)
            },
            final(self).instances() == if res is Ok {
                old(self).instances().remove(instance_id@)
            } else {
                old(self).instances()
            },
    {
        match self.begin_destroy(instance_id) {
            Ok(info) => {
                let id = info.id.as_str();
                let stopped = backend.stop_instance(id);
                assert(call_ensures(B::stop_instance, (backend, id), stopped));
                self.finish_destroy(instance_id, stopped)
            },
            Err(error) => Err(error),
        }
    }

    /// Asks the backend for the workers that it keeps track of. Nothing is made of them yet, but a
    /// backend that fails is told of.
    pub fn reconstruct<B: InstanceBackend>(&self, backend: &B) -> (res: Result<(), InstanceError>)
        ensures
            exists|listed: Result<Vec<ManagedInstanceInfo>, InstanceError>|
                #[trigger] call_ensures(B::list_managed_instances, (backend,), listed)
                    && match listed {
                    Ok(_) => res == Ok::<(), InstanceError>(()),
                    Err(error) => res == Err::<(), InstanceError>(error),
                },
    {
        let listed = backend.list_managed_instances();
        assert(call_ensures(B::list_managed_instances, (backend,), listed));
        match listed {
            Ok(_) => Ok(()),
            Err(error) => Err(error),
        }
    }

    /// How many instances are about to run.
    pub fn pending_creates(&self) -> (n: usize)
        ensures
            n == self.pending(),
    {
        self.pending_creates
    }

    /// The instance whose worker is to be stopped.
    pub fn begin_destroy(&self, instance_id: &str) -> (res: Result<InstanceInfo, InstanceError>)
        requires
            self.wf(),
        ensures
            res == if self.instances().dom().contains(instance_id@) {
                Ok::<InstanceInfo, InstanceError>(self.instances()[instance_id@])
            } else {
                Err(InstanceError::NotFound)
            },
    {
        match self.instances.get(instance_id) {
            Some(info) => Ok(info.copy()),
            None => Err(InstanceError::NotFound),
        }
    }

    /// Forgets an instance whose worker was stopped. One whose worker could not be stopped is kept.
    pub fn finish_destroy(&mut self, instance_id: &str, stopped: Result<(), InstanceError>) -> (res:
        Result<(), InstanceError>)
        requires
            old(self).wf(),
        ensures
            final(self).wf(),
            res == stopped,
            final(self).settings() == old(self).settings(),
            final(self).pending() == old(self).pending(),
            final(self).instances() == if stopped is Ok {
                old(self).instances().remove(instance_id@)
            } else {
                old(self).instances()
            },
    {
        if stopped.is_ok() {
            let _ = self.instances.remove(instance_id);
        }
        stopped
    }

    /// The instances, in the order of their names.
    pub fn list(&self) -> (infos: Vec<InstanceInfo>)
        requires
            self.wf(),
        ensures
            self.lists(infos@),
    {
        let keys = self.instances.keys();
        let mut infos: Vec<InstanceInfo> = Vec::new();
        let mut i: usize = 0;
        while i < keys.len()
            invariant
                self.wf(),
                i <= keys@.len(),
                forall|j: int|
                    0 <= j < keys@.len() ==> self.instances@.dom().contains(#[trigger] keys@[j]@),
                infos@.len() == i,
                forall|j: int|
                    0 <= j < i ==> #[trigger] infos@[j] == self.instances@[keys@[j]@],
            decreases keys.len() - i,
        {
            assert(self.instances@.dom().contains(keys@[i as int]@));
            if let Some(info) = self.instances.get(&keys[i]) {
                infos.push(info.copy());
            }
            i += 1;
        }
        proof {
            assert forall|i: int| 0 <= i < infos@.len() implies self.instances().dom().contains(
                (#[trigger] infos@[i]).id@,
            ) && self.instances()[infos@[i].id@] == infos@[i] by {
                assert(self.instances@.dom().contains(keys@[i]@));
            }
            assert forall|i: int, j: int| 0 <= i < j < infos@.len() implies text_less(
                (#[trigger] infos@[i]).id@,
                (#[trigger] infos@[j]).id@,
            ) by {
                assert(self.instances@.dom().contains(keys@[i]@));
                assert(self.instances@.dom().contains(keys@[j]@));
                assert(text_less(keys@[i]@, keys@[j]@));
            }
            assert forall|id: Seq<char>| #[trigger]
                self.instances().dom().contains(id) implies infos@.contains(
                self.instances()[id],
            ) by {
                assert(among(keys@, id));
                let j = choose|j: int| 0 <= j < keys@.len() && #[trigger] keys@[j]@ == id;
                assert(infos@[j] == self.instances()[id]);
            }
        }
        infos
    }

    /// The instance with a given name.
    pub fn get(&self, instance_id: &str) -> (info: Option<InstanceInfo>)
        requires
            self.wf(),
        ensures
            info == if self.instances().dom().contains(instance_id@) {
                Some(self.instances()[instance_id@])
            } else {
                None
            },
    {
        match self.instances.get(instance_id) {
            Some(info) => Some(info.copy()),
            None => None,
        }
    }

    /// An instance of a session, or what is said where there is none.
    pub fn find_session(&self, session_id: &str) -> (res: Result<InstanceInfo, String>)
        requires
            self.wf(),
        ensures
            match res {
                Ok(info) => self.instances().dom().contains(info.id@) && self.instances()[info.id@]
                    == info && info.principal_session_id@ == session_id@,
                Err(why) => why@ == "no instance for principal session "@ + session_id@
                    && forall|id: Seq<char>| #[trigger]
                    self.instances().dom().contains(id)
                        ==> self.instances()[id].principal_session_id@ != session_id@,
            },
    {
        let infos = self.list();
        let mut i: usize = 0;
        while i < infos.len()
            invariant
                i <= infos@.len(),
                forall|j: int|
                    0 <= j < infos@.len() ==> self.instances().dom().contains(
                        (#[trigger] infos@[j]).id@,
                    ) && self.instances()[infos@[j].id@] == infos@[j],
                forall|j: int|
                    0 <= j < i ==> (#[trigger] infos@[j]).principal_session_id@ != session_id@,
            decreases infos.len() - i,
        {
            if text_eq(&infos[i].principal_session_id, session_id) {
                return Ok(infos[i].copy());
            }
            i += 1;
        }
        Err(join2("no instance for principal session ", session_id))
    }
}

/// A backend that starts nothing: workers are run by other means.
#[derive(Debug, Clone, Copy, Default)]
pub struct DockerCliDriver;

impl InstanceBackend for DockerCliDriver {
    /// Takes the worker for started, without a process of its own.
    fn create_instance(&self, opts: CreateInstanceOptions) -> (res: Result<
        WorkerInfo,
        InstanceError,
    >)
        ensures
            res == Ok::<WorkerInfo, InstanceError>(
                WorkerInfo {
                    pid: 0,
                    socket_path: opts.socket_path,
                    frame_socket_path: opts.frame_socket_path,
                },
            ),
    {
        Ok(
            WorkerInfo {
                pid: 0,
                socket_path: opts.socket_path,
                frame_socket_path: opts.frame_socket_path,
            },
        )
    }

    /// Takes the worker for stopped.
    fn stop_instance(&self, _instance_id: &str) -> (res: Result<(), InstanceError>)
        ensures
            res == Ok::<(), InstanceError>(()),
    {
        Ok(())
    }

    /// Keeps track of nothing.
    fn list_managed_instances(&self) -> (res: Result<Vec<ManagedInstanceInfo>, InstanceError>)
        ensures
            res matches Ok(list) && list@.len() == 0,
    {
        Ok(Vec::new())
    }

    /// Takes nothing for running.
    fn inspect_running(&self, _instance_id: &str) -> (res: Result<bool, InstanceError>)
        ensures
            res == Ok::<bool, InstanceError>(false),
    {
        Ok(false)
    }
}

/// How often instances are looked after, in seconds.
pub fn health_check_interval() -> (secs: u64)
    ensures
        secs == 10,
{
    10
}

/// The sockets of an instance lie in the directory of the settings, under the name of the instance,
/// with `.sock` for commands and `.frames.sock` for pictures. The core is that of the settings, and so
/// is the game unless another was asked for.
pub proof fn law_workers_follow_the_settings(
    options: CreateInstanceOptions,
    settings: GatewayConfig,
    rom_path: Option<String>,
)
    requires
        follows(options, settings, rom_path),
    ensures
        options.socket_path@ == settings.worker_socket_dir@ + "/"@ + options.instance_id@ + ".sock"@,
        options.frame_socket_path@ == settings.worker_socket_dir@ + "/"@ + options.instance_id@
            + ".frames.sock"@,
        options.core_path@ == settings.libretro_core_path@,
        rom_path is Some ==> options.rom_path == rom_path,
        rom_path is None ==> options.rom_path == settings.rom_path,
{
}

/// Instances with different names have different sockets.
pub proof fn law_sockets_are_told_apart(dir: Seq<char>, a: Seq<char>, b: Seq<char>)
    requires
        a != b,
    ensures
        socket_path(dir, a) != socket_path(dir, b),
        frame_socket_path(dir, a) != frame_socket_path(dir, b),
{
    let n = dir.len() + "/"@.len();
    if socket_path(dir, a) == socket_path(dir, b) {
        assert(socket_path(dir, a).len() == n + a.len() + ".sock"@.len());
        assert(socket_path(dir, b).len() == n + b.len() + ".sock"@.len());
        assert(a =~= socket_path(dir, a).subrange(n as int, (n + a.len()) as int));
        assert(b =~= socket_path(dir, b).subrange(n as int, (n + b.len()) as int));
    }
    if frame_socket_path(dir, a) == frame_socket_path(dir, b) {
        assert(frame_socket_path(dir, a).len() == n + a.len() + ".frames.sock"@.len());
        assert(frame_socket_path(dir, b).len() == n + b.len() + ".frames.sock"@.len());
        assert(a =~= frame_socket_path(dir, a).subrange(n as int, (n + a.len()) as int));
        assert(b =~= frame_socket_path(dir, b).subrange(n as int, (n + b.len()) as int));
    }
}

/// What each error says.
pub proof fn law_errors_in_words(error: InstanceError)
    ensures
        match error {
            InstanceError::MaxInstancesReached => error.words() == "max instances reached"@,
            InstanceError::UnsafeCapturePath => error.words() == "unsafe capture path"@,
            InstanceError::Docker(why) => error.words() == "docker command failed: "@ + why@,
            InstanceError::NotFound => error.words() == "instance not found"@,
        },
{
}

/// A list of the instances has each of them just once, in the order of their names.
pub proof fn law_each_instance_is_listed_once(
    manager: &InstanceManager,
    infos: Seq<InstanceInfo>,
    id: Seq<char>,
    i: int,
    j: int,
)
    requires
        manager.lists(infos),
        0 <= i < infos.len(),
        0 <= j < infos.len(),
    ensures
        infos[i] == manager.instances()[infos[i].id@],
        manager.instances().dom().contains(id) ==> exists|k: int|
            0 <= k < infos.len() && #[trigger] infos[k] == manager.instances()[id],
        i < j ==> text_less(infos[i].id@, infos[j].id@),
        infos.len() == manager.instances().dom().len(),
{
    if manager.instances().dom().contains(id) {
        let k = choose|k: int| 0 <= k < infos.len() && infos[k] == manager.instances()[id];
        assert(infos[k] == manager.instances()[id]);
    }
}

} // verus!
