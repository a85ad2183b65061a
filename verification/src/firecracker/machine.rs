//! A microVM from its start to its end.

use crate::firecracker::api::{ApiCall, ApiView};
use crate::firecracker::paths::{
    cid_of, fc_path, guest_cid, inside, jail_name, jailer_id, join_path, joined_path,
    FirecrackerConfig,
};
use crate::firecracker::plan::{
    clone_step, own_step, Recovery, AGENT_SOCKET, API_SOCKET, KERNEL, MEMORY_FILE, ROOTFS, STATE_FILE,
};
use crate::firecracker::steps::{steps_view, HostStep, StepView};
use crate::protocol::AgentRequest;
use crate::table::Table;
use crate::text::{decimal, decimal_of, opt_text, texts};
use crate::types::CreateSandboxRequest;
use crate::vm::error::{error_text, RuntimeError, RuntimeErrorView};
use vstd::prelude::*;

verus! {

broadcast use {crate::text::lemma_texts_push, crate::firecracker::steps::lemma_steps_push};

/// The folder of a sandbox in which its pause is kept.
pub const PAUSED: &'static str = "paused";

/// The folder of a sandbox into which a snapshot is restored.
pub const RESTORE: &'static str = "restore";

#[derive(Debug)]
pub struct MicroVm {
    pub sandbox_id: String,
    /// Its directory on the host.
    pub dir: String,
    pub jailed: bool,
    /// The folder with the state from which it starts, if it does not boot.
    pub saved: Option<String>,
    pub running: bool,
}

// ---------------------------------------------------------------------------
// Processes
// ---------------------------------------------------------------------------
#[derive(Debug)]
pub struct Launch {
    pub program: String,
    pub args: Vec<String>,
}

/// The command line that starts Firecracker.
pub open spec fn launch_args(config: FirecrackerConfig, vm: MicroVm) -> Seq<Seq<char>> {
    if config.jailer_binary is Some {
        seq![
            "--id"@,
            jail_name(vm.sandbox_id@),
            "--exec-file"@,
            config.firecracker_binary@,
            "--uid"@,
            decimal(config.jailer_uid as nat),
            "--gid"@,
            decimal(config.jailer_gid as nat),
            "--chroot-base-dir"@,
            joined_path(config.data_dir@, "jailer"@),
            "--"@,
            "--api-sock"@,
            "/firecracker.sock"@,
        ]
    } else {
        seq!["--api-sock"@, joined_path(vm.dir@, API_SOCKET@)]
    }
}

/// Files of a jail that are left over from an earlier start; directories first.
pub open spec fn transient_dirs() -> Seq<Seq<char>> {
    seq!["dev"@, "run"@]
}

pub open spec fn transient_files() -> Seq<Seq<char>> {
    seq!["firecracker"@, "firecracker.pid"@, API_SOCKET@, AGENT_SOCKET@]
}

/// What is removed before a jail is entered again: a name in the sandbox's
/// directory, and whether it is a directory. What is not there is no fault.
pub fn transient_entries() -> (r: [(&'static str, bool); 6])
    ensures
        forall|i: int| 0 <= i < 2 ==> (#[trigger] r@[i]).0@ == transient_dirs()[i] && r@[i].1,
        forall|i: int| 2 <= i < 6 ==> (#[trigger] r@[i]).0@ == transient_files()[i - 2] && !r@[i].1,
{
    [
        ("dev", true),
        ("run", true),
        ("firecracker", false),
        ("firecracker.pid", false),
        (API_SOCKET, false),
        (AGENT_SOCKET, false),
    ]
}

/// Disks, kernel and saved states outlive a new start.
pub proof fn law_restart_keeps_the_disks(name: Seq<char>)
    requires
        name == ROOTFS@ || name == KERNEL@ || name == PAUSED@ || name == RESTORE@ || name
            == "snapshots"@,
    ensures
        !transient_dirs().contains(name),
        !transient_files().contains(name),
{
    reveal_strlit("dev");
    reveal_strlit("run");
    reveal_strlit("firecracker");
    reveal_strlit("firecracker.pid");
    reveal_strlit("firecracker.sock");
    reveal_strlit("agent.vsock");
    reveal_strlit("rootfs.ext4");
    reveal_strlit("kernel.bin");
    reveal_strlit("paused");
    reveal_strlit("restore");
    reveal_strlit("snapshots");
    assert(name[0] == 'r' || name[0] == 'k' || name[0] == 'p' || name[0] == 's');
    assert(name[0] == 'r' ==> name.len() > 3);
    assert forall|i: int| 0 <= i < 2 implies transient_dirs()[i] != name by {
        assert(transient_dirs()[0][0] == 'd' && transient_dirs()[1].len() == 3);
    }
    assert forall|i: int| 0 <= i < 4 implies transient_files()[i] != name by {
        assert(transient_files()[0][0] == 'f');
        assert(transient_files()[1][0] == 'f');
        assert(transient_files()[2][0] == 'f');
        assert(transient_files()[3][0] == 'a');
    }
}

/// How far a start came before it failed.
#[derive(Clone, Copy, Debug, PartialEq, Eq, Structural)]
pub enum StartStage {
    /// The process could not be started.
    Launch,
    /// Its socket did not come up.
    Socket,
    /// A step of booting or waking was refused.
    Steps,
    /// The agent in the guest did not get ready.
    Agent,
}

/// Whether a process is left that has to be ended.
pub fn leaves_process(stage: StartStage) -> (b: bool)
    ensures
        b == !(stage is Launch),
{
    stage != StartStage::Launch
}

/// What is left to do about a failed start.
#[derive(Debug)]
pub struct FailedStart {
    /// The sandbox's directory is removed.
    pub remove_dir: bool,
    /// What is reported.
    pub error: RuntimeError,
}

/// What a start is reported as that failed and whose process would not end either.
pub open spec fn stuck_process(error: RuntimeErrorView, cleanup: RuntimeErrorView) -> RuntimeErrorView {
    RuntimeErrorView::Backend(
        error_text(error) + "; additionally failed to terminate Firecracker: "@ + error_text(cleanup),
    )
}

/// What is left to do after a start that failed, and what is told.
pub open spec fn fails_to_start(
    stage: StartStage,
    error: RuntimeError,
    stuck: Option<RuntimeError>,
    r: FailedStart,
) -> bool {
    match (stage, stuck) {
        (StartStage::Launch, _) => !r.remove_dir && r.error == error,
        (_, None) => r.remove_dir && r.error == error,
        (_, Some(c)) => !r.remove_dir && r.error@ == stuck_process(error@, c@),
    }
}

/// Decides what follows a failed start, once the process that it left was to be ended:
/// `stuck` is why that did not work. Whatever failed after the launch, the process is
/// gone, the directory is removed and the error is reported.
pub fn after_failed_start(stage: StartStage, error: RuntimeError, stuck: Option<RuntimeError>) -> (r:
    FailedStart)
    ensures
        fails_to_start(stage, error, stuck, r),
{
    if stage == StartStage::Launch {
        return FailedStart { remove_dir: false, error };
    }
    match stuck {
        None => FailedStart { remove_dir: true, error },
        Some(c) => {
            let mut out = error.message();
            out.push_str("; additionally failed to terminate Firecracker: ");
            let why = c.message();
            out.push_str(why.as_str());
            FailedStart { remove_dir: false, error: RuntimeError::Backend(out) }
        },
    }
}

/// What the agent is told once it is ready: the variables, secrets among them, and
/// how many processes it may have.
pub fn configure_request(request: &CreateSandboxRequest) -> (r: AgentRequest)
    ensures
        r matches AgentRequest::Configure { env, max_processes } && max_processes
            == request.resources.max_processes && env@ == request.env@.union_prefer_right(
            request.secrets@,
        ),
{
    let mut env: Table<String> = Table::new();
    env.extend_from(&request.env);
    assert(env@ =~= request.env@);
    env.extend_from(&request.secrets);
    AgentRequest::Configure { env, max_processes: request.resources.max_processes }
}

// ---------------------------------------------------------------------------
// Starting and saving
// ---------------------------------------------------------------------------
/// A file in one of the sandbox's folders, as the host knows it.
pub open spec fn host_file(dir: Seq<char>, folder: Seq<char>, name: Seq<char>) -> Seq<char> {
    joined_path(dir, joined_path(folder, name))
}

/// The same file as Firecracker knows it.
pub open spec fn inner_file(vm: MicroVm, folder: Seq<char>, name: Seq<char>) -> Seq<char> {
    inside(vm.dir@, joined_path(folder, name), vm.jailed)
}

/// Booting a new microVM.
pub open spec fn boot_steps(vm: MicroVm, request: CreateSandboxRequest) -> Seq<StepView> {
    seq![
        StepView::Call(
            ApiView::MachineConfig {
                cpu_count: request.resources.cpu_count,
                memory_mb: request.resources.memory_mb,
            },
        ),
        StepView::Call(ApiView::BootSource { kernel: inside(vm.dir@, KERNEL@, vm.jailed) }),
        StepView::Call(ApiView::RootDrive { rootfs: inside(vm.dir@, ROOTFS@, vm.jailed) }),
        StepView::Call(
            ApiView::Vsock {
                cid: cid_of(vm.dir@) as u32,
                socket: inside(vm.dir@, AGENT_SOCKET@, vm.jailed),
            },
        ),
        StepView::Call(ApiView::InstanceStart),
    ]
}

/// Waking a microVM from a saved state.
pub open spec fn wake_steps(config: FirecrackerConfig, vm: MicroVm, folder: Seq<char>) -> Seq<
    StepView,
> {
    let rootfs = joined_path(vm.dir@, ROOTFS@);
    let load = StepView::Call(
        ApiView::LoadSnapshot {
            state: inner_file(vm, folder, STATE_FILE@),
            memory: inner_file(vm, folder, MEMORY_FILE@),
        },
    );
    let disk = clone_step(host_file(vm.dir@, folder, ROOTFS@), rootfs);
    if vm.jailed {
        seq![disk, own_step(config, rootfs), load]
    } else {
        seq![disk, load]
    }
}

/// Saving a running microVM into a folder, which leaves it paused.
pub open spec fn capture_steps(config: FirecrackerConfig, vm: MicroVm, folder: Seq<char>) -> Seq<
    StepView,
> {
    let at = joined_path(vm.dir@, folder);
    let head = seq![StepView::Sync, StepView::MakeDir { path: at }];
    let tail = seq![
        StepView::Call(ApiView::Pause),
        clone_step(joined_path(vm.dir@, ROOTFS@), host_file(vm.dir@, folder, ROOTFS@)),
        StepView::Call(
            ApiView::CreateSnapshot {
                state: inner_file(vm, folder, STATE_FILE@),
                memory: inner_file(vm, folder, MEMORY_FILE@),
            },
        ),
    ];
    if vm.jailed {
        head.push(own_step(config, at)) + tail
    } else {
        head + tail
    }
}

/// The folder of a sandbox in which a snapshot is taken.
pub open spec fn snapshot_folder(snapshot_id: Seq<char>) -> Seq<char> {
    joined_path("snapshots"@, snapshot_id)
}

/// Putting a snapshot where it outlives its sandbox.
pub open spec fn publish_steps(
    config: FirecrackerConfig,
    vm: MicroVm,
    snapshot_id: Seq<char>,
) -> Seq<StepView> {
    let folder = snapshot_folder(snapshot_id);
    let kept = joined_path(joined_path(config.data_dir@, "snapshots"@), snapshot_id);
    seq![
        StepView::MakeDir { path: kept },
        clone_step(host_file(vm.dir@, folder, STATE_FILE@), joined_path(kept, STATE_FILE@)),
        clone_step(host_file(vm.dir@, folder, MEMORY_FILE@), joined_path(kept, MEMORY_FILE@)),
        clone_step(host_file(vm.dir@, folder, ROOTFS@), joined_path(kept, ROOTFS@)),
    ]
}

/// Starting a microVM: from its saved state where it has one.
pub open spec fn start_steps(
    config: FirecrackerConfig,
    vm: MicroVm,
    request: CreateSandboxRequest,
) -> Seq<StepView> {
    match vm.saved {
        Some(folder) => wake_steps(config, vm, folder@),
        None => boot_steps(vm, request),
    }
}

/// Pausing a running microVM.
pub open spec fn pause_steps(config: FirecrackerConfig, vm: MicroVm) -> Seq<StepView> {
    capture_steps(config, vm, PAUSED@)
}

/// Taking a snapshot of a running microVM, and letting it go on.
pub open spec fn snapshot_steps(
    config: FirecrackerConfig,
    vm: MicroVm,
    snapshot_id: Seq<char>,
) -> Seq<StepView> {
    capture_steps(config, vm, snapshot_folder(snapshot_id)).push(StepView::Call(ApiView::Resume))
}

/// The microVM once its pause has been written.
pub open spec fn pauses_to(before: MicroVm, after: MicroVm) -> bool {
    &&& !after.running
    &&& opt_text(after.saved) == Some(PAUSED@)
    &&& after.dir == before.dir
    &&& after.sandbox_id == before.sandbox_id
    &&& after.jailed == before.jailed
}

/// The microVM once it was stopped.
pub open spec fn stops_to(before: MicroVm, after: MicroVm) -> bool {
    after == (MicroVm { running: false, saved: None, ..before })
}

/// How a snapshot is taken.
#[derive(Debug)]
pub struct SnapshotPlan {
    /// Saving the state and going on.
    pub capture: Vec<HostStep>,
    /// The files whose sizes make up the snapshot's.
    pub measured: Vec<String>,
    /// Putting the files where they outlive the sandbox.
    pub publish: Vec<HostStep>,
}

/// The size of a snapshot's three files together, as far as it can be counted.
pub fn snapshot_size(state: u64, memory: u64, rootfs: u64) -> (r: u64)
    ensures
        r == if state + memory + rootfs > u64::MAX {
            u64::MAX as int
        } else {
            state + memory + rootfs
        },
{
    state.saturating_add(memory).saturating_add(rootfs)
}

/// What is left of starting a microVM, when it is not running.
#[derive(Debug)]
pub enum StartStep {
    Running,
    /// Start the process, wait for its socket and take the steps.
    Launch { launch: Launch, steps: Vec<HostStep> },
}

impl MicroVm {
    /// A microVM whose files have been made.
    pub fn made(config: &FirecrackerConfig, sandbox_id: &str, dir: String, request:
        &CreateSandboxRequest) -> (r: Self)
        ensures
            r.sandbox_id@ == sandbox_id@,
            r.dir == dir,
            r.jailed == (config.jailer_binary is Some),
            opt_text(r.saved) == if request.snapshot_id is Some {
                Some(RESTORE@)
            } else {
                None
            },
            !r.running,
    {
        let saved: Option<String> = if request.snapshot_id.is_some() {
            Some(RESTORE.to_owned())
        } else {
            None
        };
        MicroVm {
            sandbox_id: sandbox_id.to_owned(),
            dir,
            jailed: config.jailer_binary.is_some(),
            saved,
            running: false,
        }
    }

    /// A microVM that is taken up again, as its recovery says.
    pub fn recovered(config: &FirecrackerConfig, sandbox_id: &str, dir: String, recovery: &Recovery) -> (r:
        Self)
        ensures
            r.sandbox_id@ == sandbox_id@,
            r.dir == dir,
            r.jailed == (config.jailer_binary is Some),
            opt_text(r.saved) == if recovery.wakes {
                Some(PAUSED@)
            } else {
                None
            },
            !r.running,
    {
        let saved: Option<String> = if recovery.wakes {
            Some(PAUSED.to_owned())
        } else {
            None
        };
        MicroVm {
            sandbox_id: sandbox_id.to_owned(),
            dir,
            jailed: config.jailer_binary.is_some(),
            saved,
            running: false,
        }
    }

    fn host_path(&self, folder: &str, name: &str) -> (r: String)
        ensures
            r@ == host_file(self.dir@, folder@, name@),
    {
        let inner = join_path(folder, name);
        join_path(self.dir.as_str(), inner.as_str())
    }

    fn inner_path(&self, folder: &str, name: &str) -> (r: String)
        ensures
            r@ == inner_file(*self, folder@, name@),
    {
        let inner = join_path(folder, name);
        fc_path(self.dir.as_str(), inner.as_str(), self.jailed)
    }

    fn launch(&self, config: &FirecrackerConfig) -> (r: Launch)
        ensures
            texts(r.args@) == launch_args(*config, *self),
            r.program@ == match config.jailer_binary {
                Some(jailer) => jailer@,
                None => config.firecracker_binary@,
            },
    {
        let mut args: Vec<String> = Vec::new();
        assert(texts(args@) =~= seq![]);
        match &config.jailer_binary {
            Some(jailer) => {
                args.push("--id".to_owned());
                args.push(jailer_id(self.sandbox_id.as_str()));
                args.push("--exec-file".to_owned());
                args.push(config.firecracker_binary.clone());
                args.push("--uid".to_owned());
                args.push(decimal_of(config.jailer_uid as u64));
                args.push("--gid".to_owned());
                args.push(decimal_of(config.jailer_gid as u64));
                args.push("--chroot-base-dir".to_owned());
                args.push(join_path(config.data_dir.as_str(), "jailer"));
                args.push("--".to_owned());
                args.push("--api-sock".to_owned());
                args.push("/firecracker.sock".to_owned());
                assert(texts(args@) =~= launch_args(*config, *self));
                Launch { program: jailer.clone(), args }
            },
            None => {
                args.push("--api-sock".to_owned());
                args.push(join_path(self.dir.as_str(), API_SOCKET));
                assert(texts(args@) =~= launch_args(*config, *self));
                Launch { program: config.firecracker_binary.clone(), args }
            },
        }
    }

    fn boot(&self, request: &CreateSandboxRequest) -> (r: Vec<HostStep>)
        ensures
            steps_view(r@) == boot_steps(*self, *request),
    {
        let mut steps: Vec<HostStep> = Vec::new();
        steps.push(
            HostStep::Call(
                ApiCall::MachineConfig {
                    cpu_count: request.resources.cpu_count,
                    memory_mb: request.resources.memory_mb,
                },
            ),
        );
        let dir = self.dir.as_str();
        let kernel = fc_path(dir, KERNEL, self.jailed);
        steps.push(HostStep::Call(ApiCall::BootSource { kernel }));
        let rootfs = fc_path(dir, ROOTFS, self.jailed);
        steps.push(HostStep::Call(ApiCall::RootDrive { rootfs }));
        let socket = fc_path(dir, AGENT_SOCKET, self.jailed);
        let cid = guest_cid(dir);
        steps.push(HostStep::Call(ApiCall::Vsock { cid, socket }));
        steps.push(HostStep::Call(ApiCall::InstanceStart));
        assert(steps_view(steps@) =~= boot_steps(*self, *request));
        steps
    }

    fn wake(&self, config: &FirecrackerConfig, folder: &str) -> (r: Vec<HostStep>)
        ensures
            steps_view(r@) == wake_steps(*config, *self, folder@),
    {
        let mut steps: Vec<HostStep> = Vec::new();
        let rootfs = join_path(self.dir.as_str(), ROOTFS);
        steps.push(
            HostStep::Clone {
                from: self.host_path(folder, ROOTFS),
                to: rootfs.clone(),
                lost: None,
            },
        );
        if self.jailed {
            steps.push(
                HostStep::Own { path: rootfs, uid: config.jailer_uid, gid: config.jailer_gid },
            );
        }
        steps.push(
            HostStep::Call(
                ApiCall::LoadSnapshot {
                    state: self.inner_path(folder, STATE_FILE),
                    memory: self.inner_path(folder, MEMORY_FILE),
                },
            ),
        );
        assert(steps_view(steps@) =~= wake_steps(*config, *self, folder@));
        steps
    }

    fn capture(&self, config: &FirecrackerConfig, folder: &str) -> (r: Vec<HostStep>)
        ensures
            steps_view(r@) == capture_steps(*config, *self, folder@),
    {
        let mut steps: Vec<HostStep> = Vec::new();
        let at = join_path(self.dir.as_str(), folder);
        steps.push(HostStep::Sync);
        steps.push(HostStep::MakeDir { path: at.clone() });
        if self.jailed {
            steps.push(HostStep::Own { path: at, uid: config.jailer_uid, gid: config.jailer_gid });
        }
        steps.push(HostStep::Call(ApiCall::Pause));
        steps.push(
            HostStep::Clone {
                from: join_path(self.dir.as_str(), ROOTFS),
                to: self.host_path(folder, ROOTFS),
                lost: None,
            },
        );
        steps.push(
            HostStep::Call(
                ApiCall::CreateSnapshot {
                    state: self.inner_path(folder, STATE_FILE),
                    memory: self.inner_path(folder, MEMORY_FILE),
                },
            ),
        );
        assert(steps_view(steps@) =~= capture_steps(*config, *self, folder@));
        steps
    }

    /// How the microVM is started, unless it runs.
    pub fn begin_start(&self, config: &FirecrackerConfig, request: &CreateSandboxRequest) -> (r:
        StartStep)
        ensures
            if self.running {
                r is Running
            } else {
                r matches StartStep::Launch { launch, steps } && texts(launch.args@) == launch_args(
                    *config,
                    *self,
                ) && launch.program@ == match config.jailer_binary {
                    Some(jailer) => jailer@,
                    None => config.firecracker_binary@,
                } && steps_view(steps@) == start_steps(*config, *self, *request)
            },
    {
        if self.running {
            return StartStep::Running;
        }
        let launch = self.launch(config);
        let steps = match &self.saved {
            Some(folder) => self.wake(config, folder.as_str()),
            None => self.boot(request),
        };
        StartStep::Launch { launch, steps }
    }

    pub fn started(&mut self)
        ensures
            *final(self) == (MicroVm { running: true, ..*old(self) }),
    {
        self.running = true;
    }

    /// How the microVM is paused, if it runs; its process ends afterwards.
    pub fn begin_pause(&self, config: &FirecrackerConfig) -> (r: Option<Vec<HostStep>>)
        ensures
            match r {
                None => !self.running,
                Some(steps) => self.running && steps_view(steps@) == pause_steps(*config, *self),
            },
    {
        if self.running {
            Some(self.capture(config, PAUSED))
        } else {
            None
        }
    }

    pub fn paused(&mut self)
        ensures
            pauses_to(*old(self), *final(self)),
    {
        self.saved = Some(PAUSED.to_owned());
        self.running = false;
    }

    pub fn stopped(&mut self)
        ensures
            stops_to(*old(self), *final(self)),
    {
        self.running = false;
        self.saved = None;
    }

    pub fn destroyed(&mut self)
        ensures
            *final(self) == (MicroVm { running: false, ..*old(self) }),
    {
        self.running = false;
    }

    /// How a snapshot of the running microVM is taken.
    pub fn begin_snapshot(&self, config: &FirecrackerConfig, snapshot_id: &str) -> (r: Result<
        SnapshotPlan,
        RuntimeError,
    >)
        ensures
            if !self.running {
                r matches Err(e) && e@ == RuntimeErrorView::Conflict(
                    "persistent snapshot requires a running sandbox"@,
                )
            } else {
                let folder = snapshot_folder(snapshot_id@);
                r matches Ok(plan) && steps_view(plan.capture@) == snapshot_steps(
                    *config,
                    *self,
                    snapshot_id@,
                ) && texts(plan.measured@) == seq![
                    host_file(self.dir@, folder, STATE_FILE@),
                    host_file(self.dir@, folder, MEMORY_FILE@),
                    host_file(self.dir@, folder, ROOTFS@),
                ] && steps_view(plan.publish@) == publish_steps(*config, *self, snapshot_id@)
            },
    {
        if !self.running {
            return Err(
                RuntimeError::Conflict("persistent snapshot requires a running sandbox".to_owned()),
            );
        }
        let folder = join_path("snapshots", snapshot_id);
        let mut capture = self.capture(config, folder.as_str());
        capture.push(HostStep::Call(ApiCall::Resume));
        let state = self.host_path(folder.as_str(), STATE_FILE);
        let memory = self.host_path(folder.as_str(), MEMORY_FILE);
        let rootfs = self.host_path(folder.as_str(), ROOTFS);
        let all = join_path(config.data_dir.as_str(), "snapshots");
        let kept = join_path(all.as_str(), snapshot_id);
        let mut publish: Vec<HostStep> = Vec::new();
        publish.push(HostStep::MakeDir { path: kept.clone() });
        publish.push(
            HostStep::Clone {
                from: state.clone(),
                to: join_path(kept.as_str(), STATE_FILE),
                lost: None,
            },
        );
        publish.push(
            HostStep::Clone {
                from: memory.clone(),
                to: join_path(kept.as_str(), MEMORY_FILE),
                lost: None,
            },
        );
        publish.push(
            HostStep::Clone {
                from: rootfs.clone(),
                to: join_path(kept.as_str(), ROOTFS),
                lost: None,
            },
        );
        assert(steps_view(publish@) =~= publish_steps(*config, *self, snapshot_id@));
        let mut measured: Vec<String> = Vec::new();
        measured.push(state);
        measured.push(memory);
        measured.push(rootfs);
        assert(texts(measured@) =~= seq![
            host_file(self.dir@, folder@, STATE_FILE@),
            host_file(self.dir@, folder@, MEMORY_FILE@),
            host_file(self.dir@, folder@, ROOTFS@),
        ]);
        Ok(SnapshotPlan { capture, measured, publish })
    }
}

/// A microVM that was paused wakes from the very files that its pause wrote.
pub proof fn law_pause_and_wake_use_the_same_files(
    config: FirecrackerConfig,
    running: MicroVm,
    woken: MicroVm,
)
    requires
        woken.dir == running.dir,
        woken.jailed == running.jailed,
    ensures
        ({
            let saved = capture_steps(config, running, PAUSED@);
            let loaded = wake_steps(config, woken, PAUSED@);
            &&& saved.last() matches StepView::Call(ApiView::CreateSnapshot { state, memory })
                && loaded.last() == StepView::Call(ApiView::LoadSnapshot { state, memory })
            &&& saved[saved.len() - 2] matches StepView::Clone { from, to, lost } && loaded[0]
                == clone_step(to, from)
        }),
{
}

} // verus!
