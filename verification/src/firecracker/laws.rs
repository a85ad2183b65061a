//! What the steps of a microVM come to, on a model of the machine that they drive.
//!
//! The model reads requests as they are sent: by their method, their path and the fields
//! of their body.

use crate::firecracker::api::{api_fields, api_method, api_path, ApiView};
use crate::firecracker::machine::{
    boot_steps, capture_steps, host_file, inner_file, pause_steps, pauses_to, publish_steps,
    snapshot_folder, snapshot_steps, start_steps, stops_to, wake_steps, MicroVm, PAUSED, RESTORE,
};
use crate::firecracker::paths::{
    cid_of, directory_of, inside, jail_name, jailer_char, joined_path, FirecrackerConfig,
};
use crate::firecracker::plan::{
    clone_step, create_steps, furnish_steps, paused_files, preflight_steps, restore_steps,
    AGENT_SOCKET, KERNEL, MEMORY_FILE, ROOTFS, STATE_FILE,
};
use crate::firecracker::steps::StepView;
use crate::json::{find_field, JsonView};
use crate::text::{decimal, has_sub, occurs_at};
use crate::types::CreateSandboxRequest;
use vstd::prelude::*;

verus! {

// ---------------------------------------------------------------------------
// The machine
// ---------------------------------------------------------------------------
pub enum Power {
    Off,
    Running,
    Paused,
}

/// A microVM as far as its requests set it up.
pub struct Machine {
    pub power: Power,
    pub vcpus: Option<Seq<char>>,
    pub memory_mib: Option<Seq<char>>,
    pub kernel: Option<Seq<char>>,
    pub boot_args: Option<Seq<char>>,
    /// The disk that the guest boots from and may write to.
    pub root: Option<Seq<char>>,
    pub cid: Option<Seq<char>>,
    pub socket: Option<Seq<char>>,
    /// The files that the last snapshot was written to: state and memory.
    pub saved: Option<(Seq<char>, Seq<char>)>,
    /// The files that the machine was loaded from.
    pub loaded: Option<(Seq<char>, Seq<char>)>,
    /// A request that made no sense at its time was sent.
    pub confused: bool,
}

/// A machine that was just launched.
pub open spec fn blank_machine() -> Machine {
    Machine {
        power: Power::Off,
        vcpus: None,
        memory_mib: None,
        kernel: None,
        boot_args: None,
        root: None,
        cid: None,
        socket: None,
        saved: None,
        loaded: None,
        confused: false,
    }
}

pub open spec fn text_field(fields: Seq<(Seq<char>, JsonView)>, key: Seq<char>) -> Option<Seq<char>> {
    match find_field(fields, key) {
        Some(JsonView::Text(t)) => Some(t),
        _ => None,
    }
}

pub open spec fn number_field(fields: Seq<(Seq<char>, JsonView)>, key: Seq<char>) -> Option<
    Seq<char>,
> {
    match find_field(fields, key) {
        Some(JsonView::Number(n)) => Some(n),
        _ => None,
    }
}

pub open spec fn flag(fields: Seq<(Seq<char>, JsonView)>, key: Seq<char>) -> bool {
    find_field(fields, key) == Some(JsonView::Bool(true))
}

/// What a machine does about a `PUT`.
pub open spec fn put(m: Machine, path: Seq<char>, fields: Seq<(Seq<char>, JsonView)>) -> Machine {
    if path == "/machine-config"@ && m.power is Off {
        Machine {
            vcpus: number_field(fields, "vcpu_count"@),
            memory_mib: number_field(fields, "mem_size_mib"@),
            ..m
        }
    } else if path == "/boot-source"@ && m.power is Off {
        Machine {
            kernel: text_field(fields, "kernel_image_path"@),
            boot_args: text_field(fields, "boot_args"@),
            ..m
        }
    } else if path == "/drives/rootfs"@ && m.power is Off && flag(fields, "is_root_device"@)
        && !flag(fields, "is_read_only"@) {
        Machine { root: text_field(fields, "path_on_host"@), ..m }
    } else if path == "/vsock"@ && m.power is Off {
        Machine {
            cid: number_field(fields, "guest_cid"@),
            socket: text_field(fields, "uds_path"@),
            ..m
        }
    } else if path == "/actions"@ && m.power is Off && text_field(fields, "action_type"@) == Some(
        "InstanceStart"@,
    ) && m.kernel is Some && m.root is Some {
        Machine { power: Power::Running, ..m }
    } else if path == "/snapshot/create"@ && m.power is Paused && text_field(
        fields,
        "snapshot_type"@,
    ) == Some("Full"@) {
        match (text_field(fields, "snapshot_path"@), text_field(fields, "mem_file_path"@)) {
            (Some(state), Some(memory)) => Machine { saved: Some((state, memory)), ..m },
            _ => Machine { confused: true, ..m },
        }
    } else if path == "/snapshot/load"@ && m.power is Off {
        match (text_field(fields, "snapshot_path"@), find_field(fields, "mem_backend"@)) {
            (Some(state), Some(JsonView::Object(backend))) => match (
                text_field(backend, "backend_type"@),
                text_field(backend, "backend_path"@),
            ) {
                (Some(kind), Some(memory)) => if kind == "File"@ {
                    Machine {
                        power: if flag(fields, "resume_vm"@) {
                            Power::Running
                        } else {
                            Power::Paused
                        },
                        loaded: Some((state, memory)),
                        ..m
                    }
                } else {
                    Machine { confused: true, ..m }
                },
                _ => Machine { confused: true, ..m },
            },
            _ => Machine { confused: true, ..m },
        }
    } else {
        Machine { confused: true, ..m }
    }
}

/// What a machine does about a `PATCH`.
pub open spec fn patch(m: Machine, path: Seq<char>, fields: Seq<(Seq<char>, JsonView)>) -> Machine {
    if path == "/vm"@ && m.power is Running && text_field(fields, "state"@) == Some("Paused"@) {
        Machine { power: Power::Paused, ..m }
    } else if path == "/vm"@ && m.power is Paused && text_field(fields, "state"@) == Some(
        "Resumed"@,
    ) {
        Machine { power: Power::Running, ..m }
    } else {
        Machine { confused: true, ..m }
    }
}

/// What a machine does about a request.
pub open spec fn answer(
    m: Machine,
    method: Seq<char>,
    path: Seq<char>,
    fields: Seq<(Seq<char>, JsonView)>,
) -> Machine {
    if method == "PUT"@ {
        put(m, path, fields)
    } else if method == "PATCH"@ {
        patch(m, path, fields)
    } else {
        Machine { confused: true, ..m }
    }
}

pub open spec fn after_call(m: Machine, call: ApiView) -> Machine {
    answer(m, api_method(call), api_path(call), api_fields(call))
}

/// The machine once these steps were taken.
pub open spec fn after_steps(m: Machine, steps: Seq<StepView>) -> Machine
    decreases steps.len(),
{
    if steps.len() == 0 {
        m
    } else {
        let before = after_steps(m, steps.drop_last());
        match steps.last() {
            StepView::Call(call) => after_call(before, call),
            _ => before,
        }
    }
}

// ---------------------------------------------------------------------------
// Single requests
// ---------------------------------------------------------------------------
proof fn lemma_words()
    ensures
        "PUT"@ != "PATCH"@,
        "/machine-config"@.len() == 15,
        "/boot-source"@.len() == 12,
        "/drives/rootfs"@.len() == 14 && "/drives/rootfs"@[1] == 'd',
        "/vsock"@.len() == 6,
        "/actions"@.len() == 8,
        "/snapshot/create"@.len() == 16,
        "/snapshot/load"@.len() == 14 && "/snapshot/load"@[1] == 's',
        "/vm"@.len() == 3,
        "Paused"@ != "Resumed"@,
{
    reveal_strlit("PUT");
    reveal_strlit("PATCH");
    reveal_strlit("/machine-config");
    reveal_strlit("/boot-source");
    reveal_strlit("/drives/rootfs");
    reveal_strlit("/vsock");
    reveal_strlit("/actions");
    reveal_strlit("/snapshot/create");
    reveal_strlit("/snapshot/load");
    reveal_strlit("/vm");
    reveal_strlit("Paused");
    reveal_strlit("Resumed");
    assert("PUT"@.len() != "PATCH"@.len());
    assert("Paused"@.len() != "Resumed"@.len());
}

proof fn lemma_first_field(fields: Seq<(Seq<char>, JsonView)>, i: int)
    requires
        0 <= i < fields.len(),
        forall|j: int| 0 <= j < i ==> (#[trigger] fields[j]).0 != fields[i].0,
    ensures
        find_field(fields, fields[i].0) == Some(fields[i].1),
    decreases i,
{
    if i > 0 {
        let rest = fields.drop_first();
        assert(rest[i - 1] == fields[i]);
        assert forall|j: int| 0 <= j < i - 1 implies (#[trigger] rest[j]).0 != rest[i - 1].0 by {
            assert(rest[j] == fields[j + 1]);
        }
        lemma_first_field(rest, i - 1);
        assert(fields[0].0 != fields[i].0);
    }
}

proof fn lemma_setup_calls(
    m: Machine,
    cpu_count: u8,
    memory_mb: u32,
    kernel: Seq<char>,
    rootfs: Seq<char>,
    cid: u32,
    socket: Seq<char>,
)
    requires
        m.power is Off,
    ensures
        after_call(m, ApiView::MachineConfig { cpu_count, memory_mb }) == (Machine {
            vcpus: Some(decimal(cpu_count as nat)),
            memory_mib: Some(decimal(memory_mb as nat)),
            ..m
        }),
        ({
            let next = after_call(m, ApiView::BootSource { kernel });
            &&& next == (Machine { kernel: Some(kernel), boot_args: next.boot_args, ..m })
            &&& next.boot_args matches Some(args) && has_sub(args, "init=/agentd"@)
        }),
        after_call(m, ApiView::RootDrive { rootfs }) == (Machine { root: Some(rootfs), ..m }),
        after_call(m, ApiView::Vsock { cid, socket }) == (Machine {
            cid: Some(decimal(cid as nat)),
            socket: Some(socket),
            ..m
        }),
        m.kernel is Some && m.root is Some ==> after_call(m, ApiView::InstanceStart) == (Machine {
            power: Power::Running,
            ..m
        }),
{
    lemma_words();
    reveal_strlit("vcpu_count");
    reveal_strlit("mem_size_mib");
    reveal_strlit("smt");
    reveal_strlit("kernel_image_path");
    reveal_strlit("boot_args");
    reveal_strlit("drive_id");
    reveal_strlit("path_on_host");
    reveal_strlit("is_root_device");
    reveal_strlit("is_read_only");
    reveal_strlit("guest_cid");
    reveal_strlit("uds_path");
    reveal_strlit("console=ttyS0 reboot=k panic=1 pci=off init=/agentd");
    reveal_strlit("init=/agentd");
    let f = api_fields(ApiView::MachineConfig { cpu_count, memory_mb });
    assert(f[0].0.len() == 10 && f[1].0.len() == 12);
    lemma_first_field(f, 0);
    lemma_first_field(f, 1);
    let f = api_fields(ApiView::BootSource { kernel });
    assert(f[0].0.len() == 17 && f[1].0.len() == 9);
    lemma_first_field(f, 0);
    lemma_first_field(f, 1);
    let args = "console=ttyS0 reboot=k panic=1 pci=off init=/agentd"@;
    let at = args.len() - "init=/agentd"@.len();
    assert(args.subrange(at, args.len() as int) =~= "init=/agentd"@);
    assert(occurs_at(args, "init=/agentd"@, at));
    let f = api_fields(ApiView::RootDrive { rootfs });
    assert(f[0].0.len() == 8 && f[1].0.len() == 12 && f[2].0.len() == 14 && f[3].0.len() == 12);
    assert(f[1].0[0] == 'p' && f[3].0[0] == 'i');
    lemma_first_field(f, 1);
    lemma_first_field(f, 2);
    lemma_first_field(f, 3);
    let f = api_fields(ApiView::Vsock { cid, socket });
    assert(f[0].0.len() == 9 && f[1].0.len() == 8);
    lemma_first_field(f, 0);
    lemma_first_field(f, 1);
    lemma_first_field(api_fields(ApiView::InstanceStart), 0);
}

proof fn lemma_power_calls(m: Machine, state: Seq<char>, memory: Seq<char>)
    ensures
        m.power is Running ==> after_call(m, ApiView::Pause) == (Machine {
            power: Power::Paused,
            ..m
        }),
        m.power is Paused ==> after_call(m, ApiView::Resume) == (Machine {
            power: Power::Running,
            ..m
        }),
        m.power is Paused ==> after_call(m, ApiView::CreateSnapshot { state, memory }) == (Machine {
            saved: Some((state, memory)),
            ..m
        }),
        m.power is Off ==> after_call(m, ApiView::LoadSnapshot { state, memory }) == (Machine {
            power: Power::Running,
            loaded: Some((state, memory)),
            ..m
        }),
{
    lemma_words();
    reveal_strlit("snapshot_type");
    reveal_strlit("snapshot_path");
    reveal_strlit("mem_file_path");
    reveal_strlit("mem_backend");
    reveal_strlit("enable_diff_snapshots");
    reveal_strlit("resume_vm");
    reveal_strlit("backend_type");
    reveal_strlit("backend_path");
    lemma_first_field(api_fields(ApiView::Pause), 0);
    lemma_first_field(api_fields(ApiView::Resume), 0);
    let f = api_fields(ApiView::CreateSnapshot { state, memory });
    assert(f[0].0[9] == 't' && f[1].0[9] == 'p' && f[2].0[0] == 'm');
    lemma_first_field(f, 0);
    lemma_first_field(f, 1);
    lemma_first_field(f, 2);
    let f = api_fields(ApiView::LoadSnapshot { state, memory });
    assert(f[0].0.len() == 13 && f[1].0.len() == 11 && f[2].0.len() == 21 && f[3].0.len() == 9);
    lemma_first_field(f, 0);
    lemma_first_field(f, 1);
    lemma_first_field(f, 3);
    let backend = f[1].1->Object_0;
    assert(backend[0].0[8] == 't' && backend[1].0[8] == 'p');
    lemma_first_field(backend, 0);
    lemma_first_field(backend, 1);
}

proof fn lemma_after_push(m: Machine, steps: Seq<StepView>, step: StepView)
    ensures
        after_steps(m, steps.push(step)) == match step {
            StepView::Call(call) => after_call(after_steps(m, steps), call),
            _ => after_steps(m, steps),
        },
{
    assert(steps.push(step).drop_last() =~= steps);
}

// ---------------------------------------------------------------------------
// Booting, waking and saving
// ---------------------------------------------------------------------------
/// After all the steps of booting the machine runs, with the processors, the memory, the
/// kernel and the disk that were asked for, and with a socket to its agent.
pub proof fn law_booted_machines_run(vm: MicroVm, request: CreateSandboxRequest)
    ensures
        ({
            let m = after_steps(blank_machine(), boot_steps(vm, request));
            &&& m.power is Running
            &&& !m.confused
            &&& m.vcpus == Some(decimal(request.resources.cpu_count as nat))
            &&& m.memory_mib == Some(decimal(request.resources.memory_mb as nat))
            &&& m.kernel == Some(inside(vm.dir@, KERNEL@, vm.jailed))
            &&& m.root == Some(inside(vm.dir@, ROOTFS@, vm.jailed))
            &&& m.socket == Some(inside(vm.dir@, AGENT_SOCKET@, vm.jailed))
            &&& m.cid == Some(decimal(cid_of(vm.dir@)))
            &&& m.boot_args matches Some(args) && has_sub(args, "init=/agentd"@)
            &&& m.loaded is None
        }),
{
    let all = boot_steps(vm, request);
    let m0 = blank_machine();
    let kernel = inside(vm.dir@, KERNEL@, vm.jailed);
    let rootfs = inside(vm.dir@, ROOTFS@, vm.jailed);
    let socket = inside(vm.dir@, AGENT_SOCKET@, vm.jailed);
    let cid = cid_of(vm.dir@) as u32;
    let cpus = request.resources.cpu_count;
    let memory = request.resources.memory_mb;
    let s1 = all.take(1);
    let s2 = all.take(2);
    let s3 = all.take(3);
    let s4 = all.take(4);
    assert(all.take(0) =~= seq![]);
    assert(s1 =~= Seq::<StepView>::empty().push(all[0]));
    assert(s2 =~= s1.push(all[1]));
    assert(s3 =~= s2.push(all[2]));
    assert(s4 =~= s3.push(all[3]));
    assert(all =~= s4.push(all[4]));
    lemma_after_push(m0, Seq::<StepView>::empty(), all[0]);
    lemma_after_push(m0, s1, all[1]);
    lemma_after_push(m0, s2, all[2]);
    lemma_after_push(m0, s3, all[3]);
    lemma_after_push(m0, s4, all[4]);
    lemma_setup_calls(m0, cpus, memory, kernel, rootfs, cid, socket);
    lemma_setup_calls(after_steps(m0, s1), cpus, memory, kernel, rootfs, cid, socket);
    lemma_setup_calls(after_steps(m0, s2), cpus, memory, kernel, rootfs, cid, socket);
    lemma_setup_calls(after_steps(m0, s3), cpus, memory, kernel, rootfs, cid, socket);
    lemma_setup_calls(after_steps(m0, s4), cpus, memory, kernel, rootfs, cid, socket);
}

/// After all the steps of waking the machine runs, from the state that was asked for.
pub proof fn law_woken_machines_run(config: FirecrackerConfig, vm: MicroVm, folder: Seq<char>)
    ensures
        ({
            let m = after_steps(blank_machine(), wake_steps(config, vm, folder));
            &&& m.power is Running
            &&& !m.confused
            &&& m.loaded == Some(
                (inner_file(vm, folder, STATE_FILE@), inner_file(vm, folder, MEMORY_FILE@)),
            )
        }),
{
    let all = wake_steps(config, vm, folder);
    let m0 = blank_machine();
    let state = inner_file(vm, folder, STATE_FILE@);
    let memory = inner_file(vm, folder, MEMORY_FILE@);
    lemma_power_calls(m0, state, memory);
    assert(all.take(0) =~= seq![]);
    assert(all.take(1) =~= Seq::<StepView>::empty().push(all[0]));
    assert(all.take(2) =~= all.take(1).push(all[1]));
    lemma_after_push(m0, Seq::<StepView>::empty(), all[0]);
    lemma_after_push(m0, all.take(1), all[1]);
    if vm.jailed {
        assert(all =~= all.take(2).push(all[2]));
        lemma_after_push(m0, all.take(2), all[2]);
    } else {
        assert(all =~= all.take(2));
    }
}

/// A microVM that was stopped boots afresh, whatever it was paused with before.
pub proof fn law_stopped_machines_boot(
    config: FirecrackerConfig,
    vm: MicroVm,
    stopped: MicroVm,
    request: CreateSandboxRequest,
)
    requires
        stops_to(vm, stopped),
    ensures
        ({
            let m = after_steps(blank_machine(), start_steps(config, stopped, request));
            &&& m.power is Running
            &&& !m.confused
            &&& m.loaded is None
            &&& m.root == Some(inside(vm.dir@, ROOTFS@, vm.jailed))
        }),
{
    law_booted_machines_run(stopped, request);
}

/// Saving leaves a running machine paused, with its state and memory in the folder; one
/// more call lets it go on.
pub proof fn law_saved_machines_pause_and_go_on(
    config: FirecrackerConfig,
    vm: MicroVm,
    folder: Seq<char>,
    running: Machine,
)
    requires
        running.power is Running,
        !running.confused,
    ensures
        ({
            let steps = capture_steps(config, vm, folder);
            let saved = after_steps(running, steps);
            let gone_on = after_steps(running, steps.push(StepView::Call(ApiView::Resume)));
            &&& saved.power is Paused
            &&& !saved.confused
            &&& saved.saved == Some(
                (inner_file(vm, folder, STATE_FILE@), inner_file(vm, folder, MEMORY_FILE@)),
            )
            &&& gone_on == (Machine { power: Power::Running, ..saved })
        }),
{
    let all = capture_steps(config, vm, folder);
    let state = inner_file(vm, folder, STATE_FILE@);
    let memory = inner_file(vm, folder, MEMORY_FILE@);
    let n = all.len() as int;
    let head = all.take(n - 3);
    assert(all.take(0) =~= seq![]);
    assert(all.take(1) =~= Seq::<StepView>::empty().push(all[0]));
    assert(all.take(2) =~= all.take(1).push(all[1]));
    lemma_after_push(running, Seq::<StepView>::empty(), all[0]);
    lemma_after_push(running, all.take(1), all[1]);
    if vm.jailed {
        assert(all.take(3) =~= all.take(2).push(all[2]));
        lemma_after_push(running, all.take(2), all[2]);
    }
    assert(after_steps(running, head) == running);
    assert(all.take(n - 2) =~= head.push(all[n - 3]));
    assert(all.take(n - 1) =~= all.take(n - 2).push(all[n - 2]));
    assert(all =~= all.take(n - 1).push(all[n - 1]));
    lemma_after_push(running, head, all[n - 3]);
    lemma_after_push(running, all.take(n - 2), all[n - 2]);
    lemma_after_push(running, all.take(n - 1), all[n - 1]);
    lemma_after_push(running, all, StepView::Call(ApiView::Resume));
    lemma_power_calls(running, state, memory);
    lemma_power_calls(after_steps(running, all.take(n - 2)), state, memory);
    lemma_power_calls(after_steps(running, all.take(n - 1)), state, memory);
    lemma_power_calls(after_steps(running, all), state, memory);
}

// ---------------------------------------------------------------------------
// The host
// ---------------------------------------------------------------------------
/// A machine and the files around it. What files hold, and what the guest is doing, is
/// told apart by numbers.
pub struct World {
    pub machine: Machine,
    pub files: Map<Seq<char>, int>,
    /// The guest's processors and devices, and its memory.
    pub guest: (int, int),
}

/// What is copied of a disk that is being written to.
pub open spec fn torn() -> int {
    -1
}

/// A file that Firecracker names, as the host knows it.
pub open spec fn on_host(vm: MicroVm, path: Seq<char>) -> Seq<char> {
    if vm.jailed {
        joined_path(vm.dir@, path.skip(1))
    } else {
        path
    }
}

/// What one step does.
pub open spec fn world_step(w: World, vm: MicroVm, step: StepView) -> World {
    match step {
        StepView::Clone { from, to, lost } => World {
            files: w.files.insert(
                to,
                if w.machine.power is Running && from == joined_path(vm.dir@, ROOTFS@) {
                    torn()
                } else {
                    w.files[from]
                },
            ),
            ..w
        },
        StepView::Call(call) => {
            let m = after_call(w.machine, call);
            if api_path(call) == "/snapshot/create"@ && !m.confused {
                let (state, memory) = m.saved->Some_0;
                World {
                    machine: m,
                    files: w.files.insert(on_host(vm, state), w.guest.0).insert(
                        on_host(vm, memory),
                        w.guest.1,
                    ),
                    ..w
                }
            } else if api_path(call) == "/snapshot/load"@ && !m.confused {
                let (state, memory) = m.loaded->Some_0;
                World {
                    machine: m,
                    guest: (w.files[on_host(vm, state)], w.files[on_host(vm, memory)]),
                    ..w
                }
            } else {
                World { machine: m, ..w }
            }
        },
        _ => w,
    }
}

pub open spec fn world_after(w: World, vm: MicroVm, steps: Seq<StepView>) -> World
    decreases steps.len(),
{
    if steps.len() == 0 {
        w
    } else {
        world_step(world_after(w, vm, steps.drop_last()), vm, steps.last())
    }
}

/// A relative name: it stays below what it is joined to.
pub open spec fn is_relative(name: Seq<char>) -> bool {
    name.len() > 0 && name[0] != '/'
}

proof fn lemma_world_push(w: World, vm: MicroVm, steps: Seq<StepView>, step: StepView)
    ensures
        world_after(w, vm, steps.push(step)) == world_step(world_after(w, vm, steps), vm, step),
{
    assert(steps.push(step).drop_last() =~= steps);
}

proof fn lemma_world_append(w: World, vm: MicroVm, a: Seq<StepView>, b: Seq<StepView>)
    ensures
        world_after(w, vm, a + b) == world_after(world_after(w, vm, a), vm, b),
    decreases b.len(),
{
    if b.len() == 0 {
        assert(a + b =~= a);
    } else {
        lemma_world_append(w, vm, a, b.drop_last());
        assert((a + b).drop_last() =~= a + b.drop_last());
        assert((a + b).last() == b.last());
    }
}

/// Files of different names are different, wherever they are.
proof fn lemma_names_differ(a: Seq<char>, b: Seq<char>)
    ensures
        joined_path(a, STATE_FILE@) != joined_path(b, MEMORY_FILE@),
        joined_path(a, STATE_FILE@) != joined_path(b, ROOTFS@),
        joined_path(a, MEMORY_FILE@) != joined_path(b, ROOTFS@),
{
    reveal_strlit("vmstate.bin");
    reveal_strlit("memory.bin");
    reveal_strlit("rootfs.ext4");
    let s = joined_path(a, STATE_FILE@);
    let m = joined_path(b, MEMORY_FILE@);
    assert(s[s.len() - 5] == STATE_FILE@[6]);
    assert(m[m.len() - 5] == MEMORY_FILE@[5]);
    assert(STATE_FILE@[6] == 'e' && MEMORY_FILE@[5] == 'y');
    assert(s.last() == 'n' && m.last() == 'n');
    let r = joined_path(b, ROOTFS@);
    assert(r.last() == '4');
    assert(joined_path(a, MEMORY_FILE@).last() == 'n');
}

/// Joining is done from either end.
proof fn lemma_joined_twice(a: Seq<char>, b: Seq<char>, c: Seq<char>)
    requires
        is_relative(b),
        is_relative(c),
    ensures
        joined_path(joined_path(a, b), c) == joined_path(a, joined_path(b, c)),
        is_relative(joined_path(b, c)),
{
    assert(joined_path(joined_path(a, b), c) =~= joined_path(a, joined_path(b, c)));
}

proof fn lemma_folder_is_longer(dir: Seq<char>, folder: Seq<char>, name: Seq<char>)
    requires
        is_relative(folder),
        is_relative(name),
    ensures
        host_file(dir, folder, name).len() > joined_path(dir, name).len(),
{
    lemma_joined_twice(dir, folder, name);
    assert(joined_path(folder, name).len() >= folder.len() + name.len());
}

proof fn lemma_file_names()
    ensures
        is_relative(STATE_FILE@),
        is_relative(MEMORY_FILE@),
        is_relative(ROOTFS@),
        is_relative(PAUSED@),
        is_relative(RESTORE@),
        is_relative("snapshots"@),
        RESTORE@ == "restore"@,
        PAUSED@ == "paused"@,
{
    reveal_strlit("vmstate.bin");
    reveal_strlit("memory.bin");
    reveal_strlit("rootfs.ext4");
    reveal_strlit("paused");
    reveal_strlit("restore");
    reveal_strlit("snapshots");
}

/// Firecracker and the host mean the same file.
proof fn lemma_same_file(vm: MicroVm, folder: Seq<char>, name: Seq<char>)
    requires
        is_relative(folder),
        is_relative(name),
    ensures
        on_host(vm, inner_file(vm, folder, name)) == host_file(vm.dir@, folder, name),
        host_file(vm.dir@, folder, name) == joined_path(joined_path(vm.dir@, folder), name),
{
    lemma_joined_twice(vm.dir@, folder, name);
    let inner = joined_path(folder, name);
    if vm.jailed {
        reveal_strlit("/");
        assert(inner_file(vm, folder, name) =~= seq!['/'] + inner);
        assert(inner_file(vm, folder, name).skip(1) =~= inner);
    }
}

/// What saving leaves on the host.
proof fn lemma_capture_world(config: FirecrackerConfig, vm: MicroVm, folder: Seq<char>, w: World)
    requires
        is_relative(folder),
        w.machine.power is Running,
        !w.machine.confused,
    ensures
        ({
            let saved = world_after(w, vm, capture_steps(config, vm, folder));
            &&& saved.machine.power is Paused
            &&& !saved.machine.confused
            &&& saved.guest == w.guest
            &&& saved.files[host_file(vm.dir@, folder, STATE_FILE@)] == w.guest.0
            &&& saved.files[host_file(vm.dir@, folder, MEMORY_FILE@)] == w.guest.1
            &&& saved.files[host_file(vm.dir@, folder, ROOTFS@)] == w.files[joined_path(
                vm.dir@,
                ROOTFS@,
            )]
        }),
{
    let all = capture_steps(config, vm, folder);
    let state = inner_file(vm, folder, STATE_FILE@);
    let memory = inner_file(vm, folder, MEMORY_FILE@);
    let n = all.len() as int;
    let head = all.take(n - 3);
    lemma_file_names();
    lemma_words();
    lemma_same_file(vm, folder, STATE_FILE@);
    lemma_same_file(vm, folder, MEMORY_FILE@);
    lemma_same_file(vm, folder, ROOTFS@);
    let at = joined_path(vm.dir@, folder);
    lemma_names_differ(at, at);
    assert(all.take(0) =~= seq![]);
    assert(all.take(1) =~= Seq::<StepView>::empty().push(all[0]));
    assert(all.take(2) =~= all.take(1).push(all[1]));
    lemma_world_push(w, vm, Seq::<StepView>::empty(), all[0]);
    lemma_world_push(w, vm, all.take(1), all[1]);
    if vm.jailed {
        assert(all.take(3) =~= all.take(2).push(all[2]));
        lemma_world_push(w, vm, all.take(2), all[2]);
    }
    assert(world_after(w, vm, head) == w);
    assert(all.take(n - 2) =~= head.push(all[n - 3]));
    assert(all.take(n - 1) =~= all.take(n - 2).push(all[n - 2]));
    assert(all =~= all.take(n - 1).push(all[n - 1]));
    lemma_world_push(w, vm, head, all[n - 3]);
    lemma_world_push(w, vm, all.take(n - 2), all[n - 2]);
    lemma_world_push(w, vm, all.take(n - 1), all[n - 1]);
    lemma_power_calls(w.machine, state, memory);
    let paused = world_after(w, vm, all.take(n - 2));
    assert(paused == (World { machine: Machine { power: Power::Paused, ..w.machine }, ..w }));
    let copied = world_after(w, vm, all.take(n - 1));
    lemma_power_calls(copied.machine, state, memory);
}

/// What waking makes of the files in a folder.
proof fn lemma_wake_world(config: FirecrackerConfig, vm: MicroVm, folder: Seq<char>, w: World)
    requires
        is_relative(folder),
        w.machine.power is Off,
        !w.machine.confused,
    ensures
        ({
            let woken = world_after(w, vm, wake_steps(config, vm, folder));
            &&& woken.machine.power is Running
            &&& !woken.machine.confused
            &&& woken.guest.0 == w.files[host_file(vm.dir@, folder, STATE_FILE@)]
            &&& woken.guest.1 == w.files[host_file(vm.dir@, folder, MEMORY_FILE@)]
            &&& woken.files[joined_path(vm.dir@, ROOTFS@)] == w.files[host_file(
                vm.dir@,
                folder,
                ROOTFS@,
            )]
        }),
{
    let all = wake_steps(config, vm, folder);
    let state = inner_file(vm, folder, STATE_FILE@);
    let memory = inner_file(vm, folder, MEMORY_FILE@);
    lemma_file_names();
    lemma_words();
    lemma_same_file(vm, folder, STATE_FILE@);
    lemma_same_file(vm, folder, MEMORY_FILE@);
    lemma_same_file(vm, folder, ROOTFS@);
    lemma_names_differ(joined_path(vm.dir@, folder), vm.dir@);
    lemma_power_calls(w.machine, state, memory);
    assert(all.take(0) =~= seq![]);
    assert(all.take(1) =~= Seq::<StepView>::empty().push(all[0]));
    assert(all.take(2) =~= all.take(1).push(all[1]));
    lemma_world_push(w, vm, Seq::<StepView>::empty(), all[0]);
    lemma_world_push(w, vm, all.take(1), all[1]);
    if vm.jailed {
        assert(all =~= all.take(2).push(all[2]));
        lemma_world_push(w, vm, all.take(2), all[2]);
    } else {
        assert(all =~= all.take(2));
    }
}

/// A microVM that was paused wakes where it was: the guest goes on with its processors,
/// its memory and its disk as they were, whatever has become of the disk in between.
pub proof fn law_pause_and_wake_lose_nothing(
    config: FirecrackerConfig,
    running: MicroVm,
    before: World,
    paused: MicroVm,
    between: World,
    request: CreateSandboxRequest,
)
    requires
        pauses_to(running, paused),
        before.machine.power is Running,
        !before.machine.confused,
        between.machine == blank_machine(),
        forall|i: int|
            0 <= i < 3 ==> between.files[#[trigger] paused_files(running.dir@)[i]] == world_after(
                before,
                running,
                pause_steps(config, running),
            ).files[paused_files(running.dir@)[i]],
    ensures
        ({
            let after = world_after(between, paused, start_steps(config, paused, request));
            &&& after.machine.power is Running
            &&& !after.machine.confused
            &&& after.guest == before.guest
            &&& after.files[joined_path(paused.dir@, ROOTFS@)] == before.files[joined_path(
                running.dir@,
                ROOTFS@,
            )]
        }),
{
    lemma_file_names();
    lemma_capture_world(config, running, PAUSED@, before);
    lemma_wake_world(config, paused, PAUSED@, between);
    let dir = running.dir@;
    lemma_joined_twice(dir, PAUSED@, STATE_FILE@);
    lemma_joined_twice(dir, PAUSED@, MEMORY_FILE@);
    lemma_joined_twice(dir, PAUSED@, ROOTFS@);
    assert(paused_files(dir)[0] == host_file(dir, PAUSED@, STATE_FILE@));
    assert(paused_files(dir)[1] == host_file(dir, PAUSED@, MEMORY_FILE@));
    assert(paused_files(dir)[2] == host_file(dir, PAUSED@, ROOTFS@));
}

/// Where the three files of a snapshot are kept.
pub open spec fn kept_at(config: FirecrackerConfig, snapshot_id: Seq<char>) -> Seq<char> {
    joined_path(joined_path(config.data_dir@, "snapshots"@), snapshot_id)
}

/// The world after a snapshot was taken, the machine let go on, and the files kept.
pub open spec fn snapshot_taken(
    config: FirecrackerConfig,
    vm: MicroVm,
    snapshot_id: Seq<char>,
    w: World,
) -> World {
    world_after(
        world_after(w, vm, snapshot_steps(config, vm, snapshot_id)),
        vm,
        publish_steps(config, vm, snapshot_id),
    )
}

/// The world after a snapshot's files were brought into a new sandbox, and it was woken.
pub open spec fn snapshot_restored(
    config: FirecrackerConfig,
    vm: MicroVm,
    snapshot_id: Seq<char>,
    w: World,
) -> World {
    let filled = world_after(w, vm, restore_steps(config, vm.dir@, snapshot_id, vm.jailed));
    world_after(filled, vm, wake_steps(config, vm, RESTORE@))
}

proof fn lemma_publish_world(config: FirecrackerConfig, vm: MicroVm, id: Seq<char>, w: World)
    requires
        is_relative(id),
    ensures
        ({
            let after = world_after(w, vm, publish_steps(config, vm, id));
            let folder = snapshot_folder(id);
            let kept = kept_at(config, id);
            &&& after.machine == w.machine
            &&& after.guest == w.guest
            &&& after.files[joined_path(kept, STATE_FILE@)] == w.files[host_file(
                vm.dir@,
                folder,
                STATE_FILE@,
            )]
            &&& after.files[joined_path(kept, MEMORY_FILE@)] == w.files[host_file(
                vm.dir@,
                folder,
                MEMORY_FILE@,
            )]
            &&& after.files[joined_path(kept, ROOTFS@)] == w.files[host_file(
                vm.dir@,
                folder,
                ROOTFS@,
            )]
        }),
{
    let all = publish_steps(config, vm, id);
    let folder = snapshot_folder(id);
    let kept = kept_at(config, id);
    lemma_file_names();
    lemma_joined_twice(vm.dir@, "snapshots"@, id);
    lemma_same_file(vm, folder, STATE_FILE@);
    lemma_same_file(vm, folder, MEMORY_FILE@);
    lemma_same_file(vm, folder, ROOTFS@);
    let at = joined_path(vm.dir@, folder);
    lemma_names_differ(kept, at);
    lemma_names_differ(at, kept);
    lemma_names_differ(kept, kept);
    lemma_names_differ(at, vm.dir@);
    // The disk that is copied is the one in the folder, not the one in use.
    lemma_folder_is_longer(vm.dir@, folder, ROOTFS@);
    assert(all.take(0) =~= seq![]);
    assert(all.take(1) =~= Seq::<StepView>::empty().push(all[0]));
    assert(all.take(2) =~= all.take(1).push(all[1]));
    assert(all.take(3) =~= all.take(2).push(all[2]));
    assert(all =~= all.take(3).push(all[3]));
    lemma_world_push(w, vm, Seq::<StepView>::empty(), all[0]);
    lemma_world_push(w, vm, all.take(1), all[1]);
    lemma_world_push(w, vm, all.take(2), all[2]);
    lemma_world_push(w, vm, all.take(3), all[3]);
}

proof fn lemma_own_steps_change_nothing(w: World, vm: MicroVm, steps: Seq<StepView>)
    requires
        forall|i: int| 0 <= i < steps.len() ==> (#[trigger] steps[i]) is Own,
    ensures
        world_after(w, vm, steps) == w,
    decreases steps.len(),
{
    if steps.len() > 0 {
        lemma_own_steps_change_nothing(w, vm, steps.drop_last());
        assert(steps[steps.len() - 1] is Own);
    }
}

proof fn lemma_restore_world(config: FirecrackerConfig, vm: MicroVm, id: Seq<char>, w: World)
    requires
        is_relative(id),
        w.machine.power is Off,
    ensures
        ({
            let after = world_after(w, vm, restore_steps(config, vm.dir@, id, vm.jailed));
            let kept = kept_at(config, id);
            &&& after.machine == w.machine
            &&& after.files[host_file(vm.dir@, RESTORE@, STATE_FILE@)] == w.files[joined_path(
                kept,
                STATE_FILE@,
            )]
            &&& after.files[host_file(vm.dir@, RESTORE@, MEMORY_FILE@)] == w.files[joined_path(
                kept,
                MEMORY_FILE@,
            )]
            &&& after.files[host_file(vm.dir@, RESTORE@, ROOTFS@)] == w.files[joined_path(
                kept,
                ROOTFS@,
            )]
        }),
{
    let all = restore_steps(config, vm.dir@, id, vm.jailed);
    let files = all.take(5);
    lemma_file_names();
    lemma_same_file(vm, RESTORE@, STATE_FILE@);
    lemma_same_file(vm, RESTORE@, MEMORY_FILE@);
    lemma_same_file(vm, RESTORE@, ROOTFS@);
    let kept = kept_at(config, id);
    let at = joined_path(vm.dir@, RESTORE@);
    lemma_copies(
        w,
        vm,
        files,
        at,
        kept,
        Some("snapshot is unavailable or incomplete: "@ + id),
    );
    assert(all =~= files + all.skip(5));
    lemma_world_append(w, vm, files, all.skip(5));
    lemma_own_steps_change_nothing(world_after(w, vm, files), vm, all.skip(5));
}

/// Copying three files, and the disk among them once more, while no guest runs.
proof fn lemma_copies(
    w: World,
    vm: MicroVm,
    steps: Seq<StepView>,
    to: Seq<char>,
    from: Seq<char>,
    lost: Option<Seq<char>>,
)
    requires
        w.machine.power is Off,
        steps.len() == 5,
        steps[0] is MakeDir,
        steps[1] == (StepView::Clone {
            from: joined_path(from, STATE_FILE@),
            to: joined_path(to, STATE_FILE@),
            lost,
        }),
        steps[2] == (StepView::Clone {
            from: joined_path(from, MEMORY_FILE@),
            to: joined_path(to, MEMORY_FILE@),
            lost,
        }),
        steps[3] == (StepView::Clone {
            from: joined_path(from, ROOTFS@),
            to: joined_path(to, ROOTFS@),
            lost,
        }),
        steps[4] == clone_step(joined_path(to, ROOTFS@), joined_path(vm.dir@, ROOTFS@)),
    ensures
        ({
            let after = world_after(w, vm, steps);
            &&& after.machine == w.machine
            &&& after.files[joined_path(to, STATE_FILE@)] == w.files[joined_path(from, STATE_FILE@)]
            &&& after.files[joined_path(to, MEMORY_FILE@)] == w.files[joined_path(
                from,
                MEMORY_FILE@,
            )]
            &&& after.files[joined_path(to, ROOTFS@)] == w.files[joined_path(from, ROOTFS@)]
        }),
{
    lemma_names_differ(from, to);
    lemma_names_differ(to, from);
    lemma_names_differ(to, to);
    lemma_names_differ(to, vm.dir@);
    assert(steps.take(0) =~= seq![]);
    assert(steps.take(1) =~= Seq::<StepView>::empty().push(steps[0]));
    assert(steps.take(2) =~= steps.take(1).push(steps[1]));
    assert(steps.take(3) =~= steps.take(2).push(steps[2]));
    assert(steps.take(4) =~= steps.take(3).push(steps[3]));
    assert(steps =~= steps.take(4).push(steps[4]));
    lemma_world_push(w, vm, Seq::<StepView>::empty(), steps[0]);
    lemma_world_push(w, vm, steps.take(1), steps[1]);
    lemma_world_push(w, vm, steps.take(2), steps[2]);
    lemma_world_push(w, vm, steps.take(3), steps[3]);
    lemma_world_push(w, vm, steps.take(4), steps[4]);
}

/// A sandbox that is made from a snapshot goes on where the snapshot was taken, in a
/// directory of its own; the machine that it was taken of runs on undisturbed.
pub proof fn law_snapshots_restore_what_they_saved(
    config: FirecrackerConfig,
    source: MicroVm,
    snapshot_id: Seq<char>,
    before: World,
    copy: MicroVm,
    between: World,
)
    requires
        is_relative(snapshot_id),
        before.machine.power is Running,
        !before.machine.confused,
        between.machine == blank_machine(),
        ({
            let taken = snapshot_taken(config, source, snapshot_id, before);
            let kept = kept_at(config, snapshot_id);
            &&& between.files[joined_path(kept, STATE_FILE@)] == taken.files[joined_path(
                kept,
                STATE_FILE@,
            )]
            &&& between.files[joined_path(kept, MEMORY_FILE@)] == taken.files[joined_path(
                kept,
                MEMORY_FILE@,
            )]
            &&& between.files[joined_path(kept, ROOTFS@)] == taken.files[joined_path(kept, ROOTFS@)]
        }),
    ensures
        ({
            let taken = snapshot_taken(config, source, snapshot_id, before);
            let after = snapshot_restored(config, copy, snapshot_id, between);
            &&& taken.machine.power is Running
            &&& !taken.machine.confused
            &&& taken.guest == before.guest
            &&& after.machine.power is Running
            &&& !after.machine.confused
            &&& after.guest == before.guest
            &&& after.files[joined_path(copy.dir@, ROOTFS@)] == before.files[joined_path(
                source.dir@,
                ROOTFS@,
            )]
        }),
{
    let folder = snapshot_folder(snapshot_id);
    let capture = capture_steps(config, source, folder);
    lemma_file_names();
    lemma_words();
    lemma_joined_twice(source.dir@, "snapshots"@, snapshot_id);
    lemma_capture_world(config, source, folder, before);
    let saved = world_after(before, source, capture);
    lemma_world_push(before, source, capture, StepView::Call(ApiView::Resume));
    lemma_power_calls(saved.machine, seq![], seq![]);
    let gone_on = world_after(
        before,
        source,
        capture.push(StepView::Call(ApiView::Resume)),
    );
    assert(gone_on.files == saved.files);
    lemma_publish_world(config, source, snapshot_id, gone_on);
    lemma_restore_world(config, copy, snapshot_id, between);
    let filled = world_after(
        between,
        copy,
        restore_steps(config, copy.dir@, snapshot_id, copy.jailed),
    );
    lemma_wake_world(config, copy, RESTORE@, filled);
}

// ---------------------------------------------------------------------------
// New sandboxes
// ---------------------------------------------------------------------------
/// What a file of a new sandbox is copied from, if the steps copy it, by the last step
/// that does so.
pub open spec fn copied_from(steps: Seq<StepView>, to: Seq<char>) -> Option<Seq<char>>
    decreases steps.len(),
{
    if steps.len() == 0 {
        None
    } else {
        match steps.last() {
            StepView::Clone { from, to: there, lost } => if there == to {
                Some(from)
            } else {
                copied_from(steps.drop_last(), to)
            },
            _ => copied_from(steps.drop_last(), to),
        }
    }
}

/// A new sandbox without a snapshot gets its own copy of the disk of its template and of
/// the kernel, the disk grown to the size that was asked for, all owned by the user
/// whom a jail runs as.
pub proof fn law_new_sandboxes_get_their_own_disk(
    config: FirecrackerConfig,
    dir: Seq<char>,
    request: CreateSandboxRequest,
    disk: Seq<char>,
)
    requires
        request.snapshot_id is None,
        if request.template@ == "debian-slim"@ {
            disk == config.base_rootfs@
        } else {
            config.template_rootfs@.dom().contains(request.template@) && disk
                == config.template_rootfs@[request.template@]@
        },
    ensures
        ({
            let steps = furnish_steps(config, dir, request);
            let rootfs = joined_path(dir, ROOTFS@);
            let kernel = joined_path(dir, KERNEL@);
            &&& copied_from(steps, rootfs) == Some(disk)
            &&& copied_from(steps, kernel) == Some(config.kernel_image@)
            &&& exists|i: int|
                0 <= i < steps.len() && #[trigger] steps[i] == (StepView::Resize {
                    path: rootfs,
                    disk_mb: request.resources.disk_mb,
                })
            &&& config.jailer_binary is Some ==> forall|path: Seq<char>|
                path == dir || path == rootfs || path == kernel ==> steps.contains(
                    #[trigger] owned(config, path),
                )
            &&& forall|i: int| 0 <= i < steps.len() ==> !((#[trigger] steps[i]) is Refuse)
        }),
{
    reveal_strlit("rootfs.ext4");
    reveal_strlit("kernel.bin");
    let steps = furnish_steps(config, dir, request);
    let rootfs = joined_path(dir, ROOTFS@);
    let kernel = joined_path(dir, KERNEL@);
    assert(rootfs.last() == '4' && kernel.last() == 'n');
    assert(steps.take(0) =~= seq![]);
    assert(steps.take(1) =~= seq![steps[0]]);
    assert(steps.take(1).drop_last() =~= seq![]);
    assert(steps.take(2).drop_last() =~= steps.take(1));
    assert(steps.take(3).drop_last() =~= steps.take(2));
    assert(steps.take(1).last() == steps[0]);
    assert(steps.take(2).last() == steps[1]);
    assert(steps.take(3).last() == steps[2]);
    assert(copied_from(steps.take(1), rootfs) == Some(disk));
    assert(copied_from(steps.take(2), rootfs) == Some(disk));
    assert(copied_from(steps.take(3), rootfs) == Some(disk));
    assert(copied_from(steps.take(3), kernel) == Some(config.kernel_image@));
    assert(steps[1] == (StepView::Resize { path: rootfs, disk_mb: request.resources.disk_mb }));
    if config.jailer_binary is Some {
        assert(steps.len() == 6);
        assert(steps.take(4).drop_last() =~= steps.take(3));
        assert(steps.take(5).drop_last() =~= steps.take(4));
        assert(steps.drop_last() =~= steps.take(5));
        assert(steps.take(4).last() == steps[3]);
        assert(steps.take(5).last() == steps[4]);
        assert(copied_from(steps.take(4), rootfs) == Some(disk));
        assert(copied_from(steps.take(4), kernel) == Some(config.kernel_image@));
        assert(copied_from(steps.take(5), rootfs) == Some(disk));
        assert(copied_from(steps.take(5), kernel) == Some(config.kernel_image@));
        assert(steps[3] == owned(config, dir));
        assert(steps[4] == owned(config, rootfs));
        assert(steps[5] == owned(config, kernel));
    } else {
        assert(steps =~= steps.take(3));
    }
}

/// The file is handed to the user and group whom a jail runs as.
pub open spec fn owned(config: FirecrackerConfig, path: Seq<char>) -> StepView {
    StepView::Own { path, uid: config.jailer_uid, gid: config.jailer_gid }
}

/// A request that asks for what the backend does not do, for a template that there is
/// not, or on a host that cannot, is refused before anything is made of it.
pub proof fn law_unsupported_requests_are_refused(
    config: FirecrackerConfig,
    linux: bool,
    sandbox_id: Seq<char>,
    request: CreateSandboxRequest,
)
    requires
        !linux || config.jailer_binary is None || request.knowledge is Some
            || request.network.allow_domains@.len() > 0 || request.network.allow_cidrs@.len() > 0
            || !request.network.deny_private_network,
    ensures
        ({
            let steps = create_steps(config, linux, sandbox_id, request);
            exists|i: int|
                0 <= i < steps.len() && (#[trigger] steps[i]) is Refuse && forall|j: int|
                    0 <= j < i ==> !(steps[j] is Clone) && !(steps[j] is Resize)
        }),
{
    let steps = create_steps(config, linux, sandbox_id, request);
    let first = preflight_steps(config, linux);
    assert forall|j: int| 0 <= j < first.len() implies steps[j] == first[j] by {}
    if !linux || config.agent_vsock_port != 10000 {
        assert(steps[0] == first[0]);
        assert(steps[0] is Refuse);
    } else if config.jailer_binary is None {
        assert(first.len() == 4);
        assert(steps[3] == first[3]);
        assert(steps[3] is Refuse);
        assert(!(steps[0] is Clone) && !(steps[1] is Clone) && !(steps[2] is Clone));
    } else {
        assert(first.len() == 7);
        assert(steps[7] is Refuse);
        assert forall|j: int| 0 <= j < 7 implies !(steps[j] is Clone) && !(steps[j] is Resize) by {
            assert(steps[j] == first[j]);
        }
    }
}

/// Two sandboxes do not share a directory, unless their identifiers look alike to the
/// jailer.
pub proof fn law_sandboxes_have_their_own_directory(
    config: FirecrackerConfig,
    a: Seq<char>,
    b: Seq<char>,
)
    requires
        is_relative(a),
        is_relative(b),
        jail_name(a) != jail_name(b),
        directory_of(config, a) is Some,
    ensures
        directory_of(config, b) is Some,
        directory_of(config, a) != directory_of(config, b),
{
    reveal_strlit("root");
    let name = crate::document::names::path_file_name(config.firecracker_binary@);
    if config.jailer_binary is Some {
        let base = joined_path(joined_path(config.data_dir@, "jailer"@), name->Some_0);
        let ja = jail_name(a);
        let jb = jail_name(b);
        assert(jailer_char(a[0]) != '/' && jailer_char(b[0]) != '/');
        lemma_joined_injective(base, ja, jb);
        lemma_joined_front(joined_path(base, ja), joined_path(base, jb), "root"@);
        assert(ja.last() != '/' && jb.last() != '/');
    } else {
        assert(a != b);
        lemma_joined_injective(joined_path(config.data_dir@, "sandboxes"@), a, b);
    }
}

proof fn lemma_joined_injective(base: Seq<char>, a: Seq<char>, b: Seq<char>)
    requires
        is_relative(a),
        is_relative(b),
        a != b,
    ensures
        joined_path(base, a) != joined_path(base, b),
{
    let n = joined_path(base, a).len() - a.len();
    assert(joined_path(base, a).skip(n) =~= a);
    if joined_path(base, a) == joined_path(base, b) {
        assert(a.len() == b.len());
        assert(joined_path(base, b).skip(n) =~= b);
    }
}

proof fn lemma_joined_front(a: Seq<char>, b: Seq<char>, name: Seq<char>)
    requires
        is_relative(name),
        a != b,
        a.len() > 0 && a.last() != '/',
        b.len() > 0 && b.last() != '/',
    ensures
        joined_path(a, name) != joined_path(b, name),
{
    assert(joined_path(a, name) == a.push('/') + name);
    assert(joined_path(b, name) == b.push('/') + name);
    if joined_path(a, name) == joined_path(b, name) {
        assert((a.push('/') + name).len() == (b.push('/') + name).len());
        assert(a.len() == b.len());
        assert(joined_path(a, name).take(a.len() as int) =~= a);
        assert(joined_path(b, name).take(b.len() as int) =~= b);
    }
}

} // verus!
