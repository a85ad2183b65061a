//! What is done on the host to make, start, save and recover a microVM.
//!
//! A plan is a sequence of steps. The first step that fails ends it.

use crate::firecracker::paths::{
    directory_of, join_path, joined_path, sandbox_dir, support_error, validate_supported_request,
    FirecrackerConfig, DEFAULT_AGENT_PORT,
};
use crate::firecracker::steps::{steps_view, HostStep, StepView};
use crate::text::{decimal, push_decimal, same_text, texts};
use crate::types::{CreateSandboxRequest, SandboxState, DEFAULT_TEMPLATE};
use crate::vm::error::{RuntimeError, RuntimeErrorView};
use vstd::prelude::*;

verus! {

broadcast use {crate::text::lemma_texts_push, crate::firecracker::steps::lemma_steps_push};

pub const ROOTFS: &'static str = "rootfs.ext4";

pub const KERNEL: &'static str = "kernel.bin";

pub const API_SOCKET: &'static str = "firecracker.sock";

pub const AGENT_SOCKET: &'static str = "agent.vsock";

pub const STATE_FILE: &'static str = "vmstate.bin";

pub const MEMORY_FILE: &'static str = "memory.bin";

pub open spec fn require_step(path: Seq<char>, missing: Seq<char>) -> StepView {
    StepView::Require { path, missing }
}

pub open spec fn clone_step(from: Seq<char>, to: Seq<char>) -> StepView {
    StepView::Clone { from, to, lost: None }
}

pub open spec fn own_step(config: FirecrackerConfig, path: Seq<char>) -> StepView {
    StepView::Own { path, uid: config.jailer_uid, gid: config.jailer_gid }
}

fn require(steps: &mut Vec<HostStep>, path: &str, what: &str)
    ensures
        steps_view(final(steps)@) == steps_view(old(steps)@).push(
            require_step(path@, what@ + " does not exist: "@ + path@),
        ),
{
    let mut missing: String = what.to_owned();
    missing.push_str(" does not exist: ");
    missing.push_str(path);
    steps.push(HostStep::Require { path: path.to_owned(), missing });
}

fn clone_file(steps: &mut Vec<HostStep>, from: &str, to: &str)
    ensures
        steps_view(final(steps)@) == steps_view(old(steps)@).push(clone_step(from@, to@)),
{
    steps.push(HostStep::Clone { from: from.to_owned(), to: to.to_owned(), lost: None });
}

fn own(steps: &mut Vec<HostStep>, config: &FirecrackerConfig, path: &str)
    ensures
        steps_view(final(steps)@) == steps_view(old(steps)@).push(own_step(*config, path@)),
{
    steps.push(
        HostStep::Own { path: path.to_owned(), uid: config.jailer_uid, gid: config.jailer_gid },
    );
}

// ---------------------------------------------------------------------------
// The host
// ---------------------------------------------------------------------------
/// What the host must have before a microVM is made.
pub open spec fn preflight_steps(config: FirecrackerConfig, linux: bool) -> Seq<StepView> {
    if !linux {
        seq![
            StepView::Refuse(
                RuntimeErrorView::Backend("local Firecracker runtime requires Linux"@),
            ),
        ]
    } else if config.agent_vsock_port != DEFAULT_AGENT_PORT {
        seq![
            StepView::Refuse(
                RuntimeErrorView::Invalid(
                    "agentVsockPort must be "@ + decimal(DEFAULT_AGENT_PORT as nat)
                        + " for the bundled agentd"@,
                ),
            ),
        ]
    } else {
        let artifacts = seq![
            require_step(
                config.firecracker_binary@,
                "firecracker"@ + " does not exist: "@ + config.firecracker_binary@,
            ),
            require_step(
                config.kernel_image@,
                "kernel"@ + " does not exist: "@ + config.kernel_image@,
            ),
            require_step(
                config.base_rootfs@,
                "base rootfs"@ + " does not exist: "@ + config.base_rootfs@,
            ),
        ];
        artifacts + match config.jailer_binary {
            None => seq![
                StepView::Refuse(
                    RuntimeErrorView::Invalid(
                        "jailerBinary is required for the Firecracker backend"@,
                    ),
                ),
            ],
            Some(jailer) => seq![
                require_step(jailer@, "jailer"@ + " does not exist: "@ + jailer@),
                require_step("/dev/kvm"@, "/dev/kvm is unavailable"@),
                StepView::MakeDir { path: config.data_dir@ },
                StepView::ProbeReflink {
                    source: joined_path(config.data_dir@, ".reflink-source"@),
                    target: joined_path(config.data_dir@, ".reflink-target"@),
                },
            ],
        }
    }
}

/// The size that a disk is given, if it is not that large already.
pub open spec fn sizes_to(current: u64, disk_mb: u32, r: Result<Option<u64>, RuntimeError>) -> bool {
    let requested = disk_mb as int * 1048576;
    if requested < current {
        r matches Err(e) && e@ == RuntimeErrorView::Invalid(
            "diskMB is smaller than the "@ + decimal(((current + 1048575) / 1048576) as nat)
                + " MiB base image"@,
        )
    } else if requested == current {
        r == Ok::<Option<u64>, RuntimeError>(None)
    } else {
        r == Ok::<Option<u64>, RuntimeError>(Some(requested as u64))
    }
}

/// Bytes to which a root file system grows: nothing where it has the size already,
/// an error where it is larger.
pub fn grown_size(current: u64, disk_mb: u32) -> (r: Result<Option<u64>, RuntimeError>)
    ensures
        sizes_to(current, disk_mb, r),
{
    let requested: u64 = disk_mb as u64 * 1048576;
    if requested < current {
        let whole: u64 = current / 1048576;
        let mib: u64 = if current % 1048576 == 0 {
            whole
        } else {
            whole + 1
        };
        assert(mib == (current + 1048575) / 1048576);
        let mut message: String = "diskMB is smaller than the ".to_owned();
        push_decimal(&mut message, mib);
        message.push_str(" MiB base image");
        Err(RuntimeError::Invalid(message))
    } else if requested == current {
        Ok(None)
    } else {
        Ok(Some(requested))
    }
}

// ---------------------------------------------------------------------------
// Making a microVM
// ---------------------------------------------------------------------------
/// The root file system of a template, if there is such a template.
pub open spec fn template_of(config: FirecrackerConfig, template: Seq<char>) -> Option<Seq<char>> {
    if template == DEFAULT_TEMPLATE@ {
        Some(config.base_rootfs@)
    } else if config.template_rootfs@.dom().contains(template) {
        Some(config.template_rootfs@[template]@)
    } else {
        None
    }
}

/// Bringing a saved microVM's files into a new sandbox.
pub open spec fn restore_steps(
    config: FirecrackerConfig,
    dir: Seq<char>,
    snapshot_id: Seq<char>,
    jailed: bool,
) -> Seq<StepView> {
    let source = joined_path(joined_path(config.data_dir@, "snapshots"@), snapshot_id);
    let restore = joined_path(dir, "restore"@);
    let lost = Some("snapshot is unavailable or incomplete: "@ + snapshot_id);
    let rootfs = joined_path(dir, ROOTFS@);
    let saved = joined_path(restore, ROOTFS@);
    let files = seq![
        StepView::MakeDir { path: restore },
        StepView::Clone {
            from: joined_path(source, STATE_FILE@),
            to: joined_path(restore, STATE_FILE@),
            lost,
        },
        StepView::Clone {
            from: joined_path(source, MEMORY_FILE@),
            to: joined_path(restore, MEMORY_FILE@),
            lost,
        },
        StepView::Clone { from: joined_path(source, ROOTFS@), to: saved, lost },
        clone_step(saved, rootfs),
    ];
    if jailed {
        files + seq![
            own_step(config, restore),
            own_step(config, joined_path(restore, STATE_FILE@)),
            own_step(config, joined_path(restore, MEMORY_FILE@)),
            own_step(config, saved),
            own_step(config, rootfs),
        ]
    } else {
        files
    }
}

fn clone_saved(steps: &mut Vec<HostStep>, source: &str, restore: &str, name: &str, snapshot_id: &str)
    ensures
        steps_view(final(steps)@) == steps_view(old(steps)@).push(
            StepView::Clone {
                from: joined_path(source@, name@),
                to: joined_path(restore@, name@),
                lost: Some("snapshot is unavailable or incomplete: "@ + snapshot_id@),
            },
        ),
{
    let mut lost: String = "snapshot is unavailable or incomplete: ".to_owned();
    lost.push_str(snapshot_id);
    steps.push(
        HostStep::Clone {
            from: join_path(source, name),
            to: join_path(restore, name),
            lost: Some(lost),
        },
    );
}

fn plan_restore(
    steps: &mut Vec<HostStep>,
    config: &FirecrackerConfig,
    dir: &str,
    snapshot_id: &str,
    jailed: bool,
)
    ensures
        steps_view(final(steps)@) == steps_view(old(steps)@) + restore_steps(
            *config,
            dir@,
            snapshot_id@,
            jailed,
        ),
{
    let ghost before = steps_view(steps@);
    let all = join_path(config.data_dir.as_str(), "snapshots");
    let source = join_path(all.as_str(), snapshot_id);
    let restore = join_path(dir, "restore");
    let rootfs = join_path(dir, ROOTFS);
    let saved = join_path(restore.as_str(), ROOTFS);
    steps.push(HostStep::MakeDir { path: restore.clone() });
    clone_saved(steps, source.as_str(), restore.as_str(), STATE_FILE, snapshot_id);
    clone_saved(steps, source.as_str(), restore.as_str(), MEMORY_FILE, snapshot_id);
    clone_saved(steps, source.as_str(), restore.as_str(), ROOTFS, snapshot_id);
    clone_file(steps, saved.as_str(), rootfs.as_str());
    if jailed {
        let state = join_path(restore.as_str(), STATE_FILE);
        let memory = join_path(restore.as_str(), MEMORY_FILE);
        own(steps, config, restore.as_str());
        own(steps, config, state.as_str());
        own(steps, config, memory.as_str());
        own(steps, config, saved.as_str());
        own(steps, config, rootfs.as_str());
    }
    assert(steps_view(steps@) =~= before + restore_steps(*config, dir@, snapshot_id@, jailed));
}

/// The files of a sandbox in its directory.
pub open spec fn file_steps(
    config: FirecrackerConfig,
    dir: Seq<char>,
    source: Seq<char>,
    disk_mb: u32,
    jailed: bool,
) -> Seq<StepView> {
    let rootfs = joined_path(dir, ROOTFS@);
    let kernel = joined_path(dir, KERNEL@);
    let files = seq![
        clone_step(source, rootfs),
        StepView::Resize { path: rootfs, disk_mb },
        clone_step(config.kernel_image@, kernel),
    ];
    if jailed {
        files + seq![own_step(config, dir), own_step(config, rootfs), own_step(config, kernel)]
    } else {
        files
    }
}

/// What is done in a sandbox's directory once it is made.
pub open spec fn furnish_steps(
    config: FirecrackerConfig,
    dir: Seq<char>,
    request: CreateSandboxRequest,
) -> Seq<StepView> {
    let jailed = config.jailer_binary is Some;
    match template_of(config, request.template@) {
        None => seq![
            StepView::Refuse(
                RuntimeErrorView::Invalid("unknown template: "@ + request.template@),
            ),
        ],
        Some(source) => file_steps(config, dir, source, request.resources.disk_mb, jailed)
            + match request.snapshot_id {
            None => seq![],
            Some(id) => restore_steps(config, dir, id@, jailed),
        },
    }
}

/// Everything that is done to make a microVM.
pub open spec fn create_steps(
    config: FirecrackerConfig,
    linux: bool,
    sandbox_id: Seq<char>,
    request: CreateSandboxRequest,
) -> Seq<StepView> {
    preflight_steps(config, linux) + match support_error(request) {
        Some(text) => seq![StepView::Refuse(RuntimeErrorView::Invalid(text))],
        None => if request.snapshot_id is Some && config.jailer_binary is None {
            seq![
                StepView::Refuse(
                    RuntimeErrorView::Invalid(
                        "snapshot restore requires jailer so device paths remain stable"@,
                    ),
                ),
            ]
        } else {
            match directory_of(config, sandbox_id) {
                None => seq![
                    StepView::Refuse(
                        RuntimeErrorView::Invalid("firecracker binary has no file name"@),
                    ),
                ],
                Some(dir) => seq![StepView::MakeDir { path: dir }] + furnish_steps(
                    config,
                    dir,
                    request,
                ),
            }
        },
    }
}

fn plan_furnishing(
    steps: &mut Vec<HostStep>,
    config: &FirecrackerConfig,
    dir: &str,
    request: &CreateSandboxRequest,
)
    ensures
        steps_view(final(steps)@) == steps_view(old(steps)@) + furnish_steps(
            *config,
            dir@,
            *request,
        ),
{
    let ghost before = steps_view(steps@);
    let jailed = config.jailer_binary.is_some();
    let source: Option<String> = if same_text(request.template.as_str(), DEFAULT_TEMPLATE) {
        Some(config.base_rootfs.clone())
    } else {
        match config.template_rootfs.get(request.template.as_str()) {
            Some(path) => Some(path.clone()),
            None => None,
        }
    };
    match source {
        None => {
            let mut message: String = "unknown template: ".to_owned();
            message.push_str(request.template.as_str());
            steps.push(HostStep::Refuse(RuntimeError::Invalid(message)));
        },
        Some(source) => {
            let rootfs = join_path(dir, ROOTFS);
            let kernel = join_path(dir, KERNEL);
            clone_file(steps, source.as_str(), rootfs.as_str());
            steps.push(
                HostStep::Resize { path: rootfs.clone(), disk_mb: request.resources.disk_mb },
            );
            clone_file(steps, config.kernel_image.as_str(), kernel.as_str());
            if jailed {
                own(steps, config, dir);
                own(steps, config, rootfs.as_str());
                own(steps, config, kernel.as_str());
            }
            assert(steps_view(steps@) =~= before + file_steps(
                *config,
                dir@,
                source@,
                request.resources.disk_mb,
                jailed,
            ));
            if let Some(id) = &request.snapshot_id {
                plan_restore(steps, config, dir, id.as_str(), jailed);
            }
        },
    }
    assert(steps_view(steps@) =~= before + furnish_steps(*config, dir@, *request));
}

// ---------------------------------------------------------------------------
// Recovering a microVM
// ---------------------------------------------------------------------------
pub open spec fn lost_file(sandbox_id: Seq<char>, what: Seq<char>, path: Seq<char>) -> Seq<char> {
    "cannot recover "@ + sandbox_id + ": "@ + what + " is missing at "@ + path
}

/// What must be there before a microVM is taken up again.
pub open spec fn recover_steps(
    config: FirecrackerConfig,
    linux: bool,
    sandbox_id: Seq<char>,
    request: CreateSandboxRequest,
) -> Seq<StepView> {
    preflight_steps(config, linux) + match support_error(request) {
        Some(text) => seq![StepView::Refuse(RuntimeErrorView::Invalid(text))],
        None => match directory_of(config, sandbox_id) {
            None => seq![
                StepView::Refuse(
                    RuntimeErrorView::Invalid("firecracker binary has no file name"@),
                ),
            ],
            Some(dir) => seq![
                require_step(
                    joined_path(dir, ROOTFS@),
                    lost_file(sandbox_id, "sandbox rootfs"@, joined_path(dir, ROOTFS@)),
                ),
                require_step(
                    joined_path(dir, KERNEL@),
                    lost_file(sandbox_id, "sandbox kernel"@, joined_path(dir, KERNEL@)),
                ),
            ],
        },
    }
}

fn require_file(steps: &mut Vec<HostStep>, sandbox_id: &str, what: &str, dir: &str, name: &str)
    ensures
        steps_view(final(steps)@) == steps_view(old(steps)@).push(
            require_step(
                joined_path(dir@, name@),
                lost_file(sandbox_id@, what@, joined_path(dir@, name@)),
            ),
        ),
{
    let path = join_path(dir, name);
    let mut missing: String = "cannot recover ".to_owned();
    missing.push_str(sandbox_id);
    missing.push_str(": ");
    missing.push_str(what);
    missing.push_str(" is missing at ");
    missing.push_str(path.as_str());
    steps.push(HostStep::Require { path, missing });
}

/// The files of a microVM that was paused.
pub open spec fn paused_file(dir: Seq<char>, name: Seq<char>) -> Seq<char> {
    joined_path(joined_path(dir, "paused"@), name)
}

/// The files that a pause leaves behind: the machine's state, its memory and its disk.
pub open spec fn paused_files(dir: Seq<char>) -> Seq<Seq<char>> {
    seq![
        paused_file(dir, STATE_FILE@),
        paused_file(dir, MEMORY_FILE@),
        paused_file(dir, ROOTFS@),
    ]
}

pub fn list_paused_files(dir: &str) -> (r: Vec<String>)
    ensures
        texts(r@) == paused_files(dir@),
{
    let paused = join_path(dir, "paused");
    let mut files: Vec<String> = Vec::new();
    files.push(join_path(paused.as_str(), STATE_FILE));
    files.push(join_path(paused.as_str(), MEMORY_FILE));
    files.push(join_path(paused.as_str(), ROOTFS));
    assert(texts(files@) =~= paused_files(dir@));
    files
}

/// How a microVM is taken up again.
#[derive(Debug)]
pub struct Recovery {
    /// Why it is not, if it is not.
    pub refusal: Option<RuntimeError>,
    /// It starts from its pause.
    pub wakes: bool,
    /// It is started at once.
    pub start: bool,
}

/// The first of the files of a pause that is missing.
pub open spec fn first_missing(found: Seq<bool>) -> int {
    if !found[0] {
        0
    } else if !found[1] {
        1
    } else {
        2
    }
}

pub open spec fn pause_is_missing(sandbox_id: Seq<char>, path: Seq<char>) -> RuntimeErrorView {
    RuntimeErrorView::Backend(
        "cannot recover paused sandbox "@ + sandbox_id + ": "@ + path + " is missing"@,
    )
}

/// How a sandbox is brought back, given which of the files of its pause are there.
pub open spec fn recovers(
    dir: Seq<char>,
    sandbox_id: Seq<char>,
    state: SandboxState,
    found: Seq<bool>,
    r: Recovery,
) -> bool {
    &&& r.wakes == (found[0] && found[1] && found[2])
    &&& r.start == (state is Running)
    &&& match r.refusal {
        Some(e) => state is Paused && !r.wakes && e@ == pause_is_missing(
            sandbox_id,
            paused_files(dir)[first_missing(found)],
        ),
        None => !(state is Paused) || r.wakes,
    }
}

/// Decides how a microVM in a state is taken up again. `found` says which of the files
/// of [`list_paused_files`] are there. A paused one needs them all; one that was running
/// is started, from its pause where that is complete.
pub fn plan_recovery(dir: &str, sandbox_id: &str, state: SandboxState, found: [bool; 3]) -> (r:
    Recovery)
    ensures
        recovers(dir@, sandbox_id@, state, found@, r),
{
    let wakes = found[0] && found[1] && found[2];
    let refusal: Option<RuntimeError> = if state == SandboxState::Paused && !wakes {
        let missing: usize = if !found[0] {
            0
        } else if !found[1] {
            1
        } else {
            2
        };
        let files = list_paused_files(dir);
        assert(texts(files@).len() == 3);
        assert(texts(files@)[missing as int] == files@[missing as int]@);
        let mut text: String = "cannot recover paused sandbox ".to_owned();
        text.push_str(sandbox_id);
        text.push_str(": ");
        text.push_str(files[missing].as_str());
        text.push_str(" is missing");
        Some(RuntimeError::Backend(text))
    } else {
        None
    };
    Recovery { refusal, wakes, start: state == SandboxState::Running }
}

// ---------------------------------------------------------------------------
// The factory
// ---------------------------------------------------------------------------
/// Makes microVMs by one configuration.
#[derive(Debug)]
pub struct FirecrackerFactory {
    pub config: FirecrackerConfig,
}

impl FirecrackerFactory {
    pub fn new(config: FirecrackerConfig) -> (r: Self)
        ensures
            r.config == config,
    {
        FirecrackerFactory { config }
    }

    /// What the host must have before a microVM is made.
    pub fn preflight(&self, linux: bool) -> (r: Vec<HostStep>)
        ensures
            steps_view(r@) == preflight_steps(self.config, linux),
    {
        let config = &self.config;
        let mut steps: Vec<HostStep> = Vec::new();
        assert(steps_view(steps@) =~= seq![]);
        if !linux {
            steps.push(
                HostStep::Refuse(
                    RuntimeError::Backend("local Firecracker runtime requires Linux".to_owned()),
                ),
            );
        } else if config.agent_vsock_port != DEFAULT_AGENT_PORT {
            let mut message: String = "agentVsockPort must be ".to_owned();
            push_decimal(&mut message, DEFAULT_AGENT_PORT as u64);
            message.push_str(" for the bundled agentd");
            steps.push(HostStep::Refuse(RuntimeError::Invalid(message)));
        } else {
            require(&mut steps, config.firecracker_binary.as_str(), "firecracker");
            require(&mut steps, config.kernel_image.as_str(), "kernel");
            require(&mut steps, config.base_rootfs.as_str(), "base rootfs");
            match &config.jailer_binary {
                None => {
                    steps.push(
                        HostStep::Refuse(
                            RuntimeError::Invalid(
                                "jailerBinary is required for the Firecracker backend".to_owned(),
                            ),
                        ),
                    );
                },
                Some(jailer) => {
                    require(&mut steps, jailer.as_str(), "jailer");
                    steps.push(
                        HostStep::Require {
                            path: "/dev/kvm".to_owned(),
                            missing: "/dev/kvm is unavailable".to_owned(),
                        },
                    );
                    steps.push(HostStep::MakeDir { path: config.data_dir.clone() });
                    steps.push(
                        HostStep::ProbeReflink {
                            source: join_path(config.data_dir.as_str(), ".reflink-source"),
                            target: join_path(config.data_dir.as_str(), ".reflink-target"),
                        },
                    );
                },
            }
        }
        assert(steps_view(steps@) =~= preflight_steps(*config, linux));
        steps
    }

    /// Everything that is done to make a microVM.
    pub fn create(&self, linux: bool, sandbox_id: &str, request: &CreateSandboxRequest) -> (r: Vec<HostStep>)
        ensures
            steps_view(r@) == create_steps(self.config, linux, sandbox_id@, *request),
    {
        let config = &self.config;
        let mut steps = self.preflight(linux);
        if let Err(e) = validate_supported_request(request) {
            steps.push(HostStep::Refuse(e));
        } else if request.snapshot_id.is_some() && config.jailer_binary.is_none() {
            steps.push(
                HostStep::Refuse(
                    RuntimeError::Invalid(
                        "snapshot restore requires jailer so device paths remain stable".to_owned(),
                    ),
                ),
            );
        } else {
            match sandbox_dir(config, sandbox_id) {
                Err(e) => {
                    steps.push(HostStep::Refuse(e));
                },
                Ok(dir) => {
                    steps.push(HostStep::MakeDir { path: dir.clone() });
                    plan_furnishing(&mut steps, config, dir.as_str(), request);
                },
            }
        }
        assert(steps_view(steps@) =~= create_steps(*config, linux, sandbox_id@, *request));
        steps
    }

    /// What must be there before a microVM is taken up again.
    pub fn recover(&self, linux: bool, sandbox_id: &str, request: &CreateSandboxRequest) -> (r: Vec<HostStep>)
        ensures
            steps_view(r@) == recover_steps(self.config, linux, sandbox_id@, *request),
    {
        let config = &self.config;
        let mut steps = self.preflight(linux);
        if let Err(e) = validate_supported_request(request) {
            steps.push(HostStep::Refuse(e));
        } else {
            match sandbox_dir(config, sandbox_id) {
                Err(e) => {
                    steps.push(HostStep::Refuse(e));
                },
                Ok(dir) => {
                    require_file(&mut steps, sandbox_id, "sandbox rootfs", dir.as_str(), ROOTFS);
                    require_file(&mut steps, sandbox_id, "sandbox kernel", dir.as_str(), KERNEL);
                },
            }
        }
        assert(steps_view(steps@) =~= recover_steps(*config, linux, sandbox_id@, *request));
        steps
    }
}

} // verus!
