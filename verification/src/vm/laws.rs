//! What holds of every sandbox, whatever carries it out.

use crate::types::{
    may_become, CommandRequest, CommandResult, CreateSandboxRequest, SandboxInfo, SandboxState,
    SnapshotInfo,
};
use crate::vm::backend::{BackendCall, BackendReply, SandboxBackend, SandboxBackendFactory};
use crate::vm::control::{
    begins_in, create_refusal, fate, file_refusal, finds, forget, listed, lists_all, remember,
    target, ControlPlane, Lifecycle, Record,
};
use crate::vm::error::{RuntimeError, RuntimeErrorView};
use crate::vm::memory::{contents, InMemoryBackend};
use crate::vm::runtime::{
    calls, command_outcome, create_outcome, destroy_outcome, destroys, found_under, kill_outcome,
    lifecycle_outcome, lookup, makes_none, makes_one, read_outcome, reap_outcome, remove_outcome,
    snapshot_outcome, struck_off, unit_answer, unit_outcome, write_outcome, Draw,
};
use vstd::prelude::*;

verus! {

/// A change that may begin in a state is one that the states allow.
pub proof fn law_lifecycle_follows_the_states(op: Lifecycle, state: SandboxState)
    requires
        begins_in(op, state),
    ensures
        may_become(state, target(op)),
{
}

/// A sandbox with secrets is neither paused nor saved: both are refused, and
/// nothing happens.
pub proof fn law_secrets_are_never_saved<B: SandboxBackend>(
    before: ControlPlane<B>,
    id: Seq<char>,
    after: ControlPlane<B>,
    pause: Result<SandboxInfo, RuntimeError>,
    save: Result<SnapshotInfo, RuntimeError>,
)
    requires
        before.sandboxes@.dom().contains(id),
        before.sandboxes@[id].info.has_secrets,
    ensures
        lifecycle_outcome(before, id, Lifecycle::Pause, after, pause) ==> after == before && (
        pause matches Err(e) && e@ == RuntimeErrorView::SecretsCannotBeSnapshotted),
        snapshot_outcome(before, id, after, save) ==> after == before && (save matches Err(e)
            && e@ == RuntimeErrorView::SecretsCannotBeSnapshotted),
{
}

/// An idle sandbox with secrets is destroyed, not paused.
pub proof fn law_idle_secrets_are_destroyed<B>(record: Record<B>, now: u64)
    requires
        record.info.has_secrets,
        record.info.state is Running,
        record.info.expires_at_ms <= now,
    ensures
        fate(record, now) is Destroyed,
{
}

// ---------------------------------------------------------------------------
// Keys
// ---------------------------------------------------------------------------
/// Something that a caller asked of the runtime.
pub enum Event {
    Create { request: CreateSandboxRequest, key: Option<Seq<char>> },
    Change { id: Seq<char>, op: Lifecycle },
    Destroy { id: Seq<char> },
    Run { id: Seq<char>, command: CommandRequest },
    Kill { id: Seq<char>, command_id: Seq<char> },
    Write { id: Seq<char>, path: Seq<char>, data: Seq<u8> },
    Remove { id: Seq<char>, path: Seq<char>, recursive: bool },
    Save { id: Seq<char> },
    DropSnapshot { id: Seq<char> },
    Reap { timestamp: u64 },
}

/// What the runtime may have done about an event, whatever it answered.
pub open spec fn happens<F: SandboxBackendFactory>(
    factory: F,
    before: ControlPlane<F::Backend>,
    event: Event,
    after: ControlPlane<F::Backend>,
) -> bool {
    match event {
        Event::Create { request, key } => exists|r: Result<SandboxInfo, RuntimeError>| #[trigger]
            create_outcome(factory, before, request, key, after, r),
        Event::Change { id, op } => exists|r: Result<SandboxInfo, RuntimeError>| #[trigger]
            lifecycle_outcome(before, id, op, after, r),
        Event::Destroy { id } => exists|r: Result<(), RuntimeError>| #[trigger]
            destroy_outcome(before, id, after, r),
        Event::Run { id, command } => exists|r: Result<CommandResult, RuntimeError>| #[trigger]
            command_outcome(before, id, command, after, r),
        Event::Kill { id, command_id } => exists|r: Result<(), RuntimeError>| #[trigger]
            kill_outcome(before, id, command_id, after, r),
        Event::Write { id, path, data } => exists|r: Result<(), RuntimeError>| #[trigger]
            write_outcome(before, id, path, data, after, r),
        Event::Remove { id, path, recursive } => exists|r: Result<(), RuntimeError>| #[trigger]
            remove_outcome(before, id, path, recursive, after, r),
        Event::Save { id } => exists|r: Result<SnapshotInfo, RuntimeError>| #[trigger]
            snapshot_outcome(before, id, after, r),
        Event::DropSnapshot { id } => after.snapshots@ == before.snapshots@.remove(id)
            && after.sandboxes == before.sandboxes && after.idempotency == before.idempotency,
        Event::Reap { timestamp } => reap_outcome(before, timestamp, after),
    }
}

/// The states that a run of the runtime goes through.
pub open spec fn is_run<F: SandboxBackendFactory>(
    factory: F,
    planes: Seq<ControlPlane<F::Backend>>,
    events: Seq<Event>,
) -> bool {
    &&& planes.len() == events.len() + 1
    &&& forall|i: int|
        0 <= i < events.len() ==> happens(factory, planes[i], #[trigger] events[i], planes[i + 1])
}

/// The key is bound to the sandbox.
pub open spec fn bound<B>(plane: ControlPlane<B>, key: Seq<char>, id: Seq<char>) -> bool {
    plane.keys().dom().contains(key) && plane.keys()[key] == id
}

/// Whatever is asked, a key leads to its sandbox as long as that is recorded.
pub proof fn law_keys_stay_bound<F: SandboxBackendFactory>(
    factory: F,
    before: ControlPlane<F::Backend>,
    event: Event,
    after: ControlPlane<F::Backend>,
    key: Seq<char>,
    id: Seq<char>,
)
    requires
        bound(before, key, id),
        before.sandboxes@.dom().contains(id),
        happens(factory, before, event, after),
        after.sandboxes@.dom().contains(id),
    ensures
        bound(after, key, id),
{
    match event {
        Event::Create { request, key: asked } => {
            let r = choose|r: Result<SandboxInfo, RuntimeError>| #[trigger]
                create_outcome(factory, before, request, asked, after, r);
            if create_refusal(request) is None && found_under(before, asked) is None {
                if !(after == before) {
                    assert(exists|
                        draw: Draw,
                        made: F::Backend,
                        reply: BackendReply,
                        record: Record<F::Backend>,
                    | #[trigger]
                        makes_one(
                            factory,
                            before,
                            request,
                            asked,
                            draw,
                            made,
                            reply,
                            record,
                            after,
                            r,
                        ));
                }
            }
        },
        Event::Destroy { id: gone } => {
            let r = choose|r: Result<(), RuntimeError>| #[trigger]
                destroy_outcome(before, gone, after, r);
            assert(after.keys() == before.keys() || after.keys() == forget(before.keys(), gone));
        },
        _ => {},
    }
}

proof fn lemma_run_keeps_keys<F: SandboxBackendFactory>(
    factory: F,
    planes: Seq<ControlPlane<F::Backend>>,
    events: Seq<Event>,
    key: Seq<char>,
    id: Seq<char>,
    n: int,
)
    requires
        is_run(factory, planes, events),
        0 <= n < planes.len(),
        bound(planes[0], key, id),
        forall|i: int| 0 <= i < planes.len() ==> (#[trigger] planes[i]).sandboxes@.dom().contains(id),
    ensures
        bound(planes[n], key, id),
    decreases n,
{
    if n > 0 {
        lemma_run_keeps_keys(factory, planes, events, key, id, n - 1);
        assert(happens(factory, planes[n - 1], events[n - 1], planes[n]));
        law_keys_stay_bound(factory, planes[n - 1], events[n - 1], planes[n], key, id);
    }
}

/// A request that made a sandbox binds its key to it.
pub proof fn law_create_binds_its_key<F: SandboxBackendFactory>(
    factory: F,
    before: ControlPlane<F::Backend>,
    request: CreateSandboxRequest,
    key: Seq<char>,
    after: ControlPlane<F::Backend>,
    made: SandboxInfo,
)
    requires
        before.sound(),
        create_outcome(factory, before, request, Some(key), after, Ok(made)),
    ensures
        bound(after, key, made.sandbox_id@),
        after.sandboxes@.dom().contains(made.sandbox_id@),
        after.sandboxes@[made.sandbox_id@].info@ == made@,
{
    let r = Ok::<SandboxInfo, RuntimeError>(made);
    assert(made.sandbox_id@ == made@.sandbox_id);
    if before.keys().dom().contains(key) {
        let id = before.keys()[key];
        assert(before.sandboxes@[id].info.sandbox_id@ == before.sandboxes@[id].info@.sandbox_id);
    } else {
        lemma_made(factory, before, request, Some(key), after, made);
    }
}

proof fn lemma_made<F: SandboxBackendFactory>(
    factory: F,
    before: ControlPlane<F::Backend>,
    request: CreateSandboxRequest,
    key: Option<Seq<char>>,
    after: ControlPlane<F::Backend>,
    made: SandboxInfo,
)
    requires
        create_outcome(factory, before, request, key, after, Ok(made)),
        found_under(before, key) is None,
    ensures
        makes_new(factory, before, request, key, after, made),
        after.keys() == remember(before.keys(), key, made.sandbox_id@),
        after.sandboxes@.dom().contains(made.sandbox_id@),
        after.sandboxes@[made.sandbox_id@].info@ == made@,
{
    let r = Ok::<SandboxInfo, RuntimeError>(made);
    assert(made.sandbox_id@ == made@.sandbox_id);
    assert forall|draw: Draw, error: RuntimeErrorView| !#[trigger] makes_none(
        factory,
        before,
        request,
        draw,
        error,
        after,
        r,
    ) by {}
    let (draw, backend, reply, record) = choose|
        draw: Draw,
        backend: F::Backend,
        reply: BackendReply,
        record: Record<F::Backend>,
    | #[trigger]
        makes_one(factory, before, request, key, draw, backend, reply, record, after, r);
    assert(after.sandboxes@[draw.sandbox_id] == record);
}

/// The sandbox that was answered was made for this request: its identifier was drawn
/// for it, and a backend was made and started.
pub open spec fn makes_new<F: SandboxBackendFactory>(
    factory: F,
    before: ControlPlane<F::Backend>,
    request: CreateSandboxRequest,
    key: Option<Seq<char>>,
    after: ControlPlane<F::Backend>,
    made: SandboxInfo,
) -> bool {
    exists|
        draw: Draw,
        backend: F::Backend,
        reply: BackendReply,
        record: Record<F::Backend>,
    | #[trigger]
        makes_one(
            factory,
            before,
            request,
            key,
            draw,
            backend,
            reply,
            record,
            after,
            Ok::<SandboxInfo, RuntimeError>(made),
        )
}

/// A request that repeats the key of a sandbox gets that sandbox and makes none,
/// whatever was asked in between, as long as the sandbox was there all the time.
pub proof fn law_repeated_key_finds_the_sandbox<F: SandboxBackendFactory>(
    factory: F,
    before: ControlPlane<F::Backend>,
    request: CreateSandboxRequest,
    key: Seq<char>,
    first: SandboxInfo,
    planes: Seq<ControlPlane<F::Backend>>,
    events: Seq<Event>,
    repeat: CreateSandboxRequest,
    after: ControlPlane<F::Backend>,
    second: Result<SandboxInfo, RuntimeError>,
)
    requires
        before.sound(),
        is_run(factory, planes, events),
        create_outcome(factory, before, request, Some(key), planes[0], Ok(first)),
        forall|i: int|
            0 <= i < planes.len() ==> (#[trigger] planes[i]).sandboxes@.dom().contains(
                first.sandbox_id@,
            ),
        create_refusal(repeat) is None,
        create_outcome(factory, planes.last(), repeat, Some(key), after, second),
    ensures
        after == planes.last(),
        second matches Ok(info) && info@ == planes.last().sandboxes@[first.sandbox_id@].info@,
{
    law_create_binds_its_key(factory, before, request, key, planes[0], first);
    lemma_run_keeps_keys(factory, planes, events, key, first.sandbox_id@, planes.len() - 1);
    assert(planes.last() == planes[planes.len() - 1]);
}

/// A request without a key is never answered with an older sandbox.
pub proof fn law_requests_without_a_key_make_their_own<F: SandboxBackendFactory>(
    factory: F,
    before: ControlPlane<F::Backend>,
    request: CreateSandboxRequest,
    after: ControlPlane<F::Backend>,
    made: SandboxInfo,
)
    requires
        create_outcome(factory, before, request, None, after, Ok(made)),
    ensures
        makes_new(factory, before, request, None, after, made),
        after.keys() == before.keys(),
{
    lemma_made(factory, before, request, None, after, made);
}

/// A sandbox that could not be made or started is found by no key.
pub proof fn law_failed_create_binds_no_key<F: SandboxBackendFactory>(
    factory: F,
    before: ControlPlane<F::Backend>,
    request: CreateSandboxRequest,
    key: Option<Seq<char>>,
    after: ControlPlane<F::Backend>,
    error: RuntimeError,
)
    requires
        create_outcome(factory, before, request, key, after, Err(error)),
    ensures
        after.keys() == before.keys(),
{
}

// ---------------------------------------------------------------------------
// Destruction
// ---------------------------------------------------------------------------
/// Once a sandbox was destroyed, neither its identifier nor any key leads to it; the
/// other sandboxes and the snapshots are as they were.
pub proof fn law_destroy_removes_access<B: SandboxBackend>(
    before: ControlPlane<B>,
    id: Seq<char>,
    after: ControlPlane<B>,
    look: Result<SandboxInfo, RuntimeError>,
    all: Seq<SandboxInfo>,
    last: ControlPlane<B>,
    again: Result<(), RuntimeError>,
)
    requires
        destroy_outcome(before, id, after, Ok(())),
        finds(after.sandboxes@, id, look),
        lists_all(after.sandboxes@, all),
        destroy_outcome(after, id, last, again),
    ensures
        look matches Err(e) && e@ == RuntimeErrorView::NotFound,
        again matches Err(e) && e@ == RuntimeErrorView::NotFound,
        !listed(all, id),
        forall|k: Seq<char>| #[trigger] after.keys().dom().contains(k) ==> after.keys()[k] != id,
        forall|other: Seq<char>|
            other != id ==> #[trigger] lookup(after.sandboxes@, other) == lookup(
                before.sandboxes@,
                other,
            ),
        after.snapshots == before.snapshots,
{
    lemma_struck_off(before, id, after);
    if listed(all, id) {
        let j = choose|j: int| 0 <= j < all.len() && (#[trigger] all[j]).sandbox_id@ == id;
        assert(after.sandboxes@.dom().contains(all[j].sandbox_id@));
    }
}

proof fn lemma_struck_off<B: SandboxBackend>(
    before: ControlPlane<B>,
    id: Seq<char>,
    after: ControlPlane<B>,
)
    requires
        destroy_outcome(before, id, after, Ok(())),
    ensures
        before.sandboxes@.dom().contains(id),
        struck_off(before, id, after),
{
    if !(before.sandboxes@[id].info.state is Destroyed) {
        let (backend, reply) = choose|backend: B, reply: BackendReply| #[trigger]
            destroys(before, id, backend, reply, after, Ok(()));
        assert(reply is Done);
    }
}

/// A request under the key of a sandbox that was destroyed is not answered with it:
/// where it gets a sandbox, that was made for it.
pub proof fn law_destroy_frees_the_key<F: SandboxBackendFactory>(
    factory: F,
    before: ControlPlane<F::Backend>,
    id: Seq<char>,
    key: Seq<char>,
    between: ControlPlane<F::Backend>,
    request: CreateSandboxRequest,
    after: ControlPlane<F::Backend>,
    made: SandboxInfo,
)
    requires
        bound(before, key, id),
        destroy_outcome(before, id, between, Ok(())),
        create_outcome(factory, between, request, Some(key), after, Ok(made)),
    ensures
        makes_new(factory, between, request, Some(key), after, made),
        bound(after, key, made.sandbox_id@),
{
    lemma_struck_off(before, id, between);
    lemma_made(factory, between, request, Some(key), after, made);
}

/// A sandbox that could not be destroyed is recorded as before, and its keys lead to
/// it; only its backend may have changed.
pub proof fn law_failed_destroy_keeps_the_sandbox<B: SandboxBackend>(
    before: ControlPlane<B>,
    id: Seq<char>,
    after: ControlPlane<B>,
    error: RuntimeError,
)
    requires
        before.sandboxes@.dom().contains(id),
        destroy_outcome(before, id, after, Err(error)),
    ensures
        after.sandboxes@.dom().contains(id),
        after.sandboxes@[id].info == before.sandboxes@[id].info,
        after.sandboxes@[id].request == before.sandboxes@[id].request,
        after.keys() == before.keys(),
        after.snapshots == before.snapshots,
{
}

/// An operation on one sandbox leaves every other as it is.
pub proof fn law_sandboxes_are_isolated<B: SandboxBackend>(
    before: ControlPlane<B>,
    id: Seq<char>,
    after: ControlPlane<B>,
    other: Seq<char>,
    op: Lifecycle,
    change: Result<SandboxInfo, RuntimeError>,
    refusal: Option<RuntimeErrorView>,
    call: BackendCall,
    uses: bool,
    done: Result<(), RuntimeError>,
)
    requires
        other != id,
        refusal is None ==> before.sandboxes@.dom().contains(id),
        lifecycle_outcome(before, id, op, after, change) || unit_outcome(
            before,
            id,
            refusal,
            call,
            uses,
            after,
            done,
        ) || destroy_outcome(before, id, after, done),
    ensures
        lookup(after.sandboxes@, other) == lookup(before.sandboxes@, other),
{
}

/// What was written to a file in a sandbox in memory is what is read from it, by
/// whoever is ready to take that many bytes.
pub proof fn law_written_files_are_read_back(
    before: ControlPlane<InMemoryBackend>,
    id: Seq<char>,
    path: Seq<char>,
    data: Seq<u8>,
    after: ControlPlane<InMemoryBackend>,
    max_bytes: u64,
    read: Result<Vec<u8>, RuntimeError>,
)
    requires
        write_outcome(before, id, path, data, after, Ok(())),
        read_outcome(after, id, path, max_bytes, read),
    ensures
        file_refusal(after.sandboxes@, id, path, false, 0) is None,
        data.len() <= max_bytes ==> (read matches Ok(bytes) && bytes@ == data),
        data.len() > max_bytes ==> read is Err,
{
    let (backend, answer, now) = choose|backend: InMemoryBackend, answer: BackendReply, now: u64|
        #[trigger] calls(
            before.sandboxes@,
            id,
            BackendCall::Write(path, data),
            true,
            backend,
            answer,
            now,
            after.sandboxes@,
        ) && unit_answer(answer, Ok(()));
    assert(after.sandboxes@[id].backend == backend);
    assert(contents(backend.files@)[path] == data);
    crate::protocol::law_writable_paths_are_readable(path);
}

} // verus!
