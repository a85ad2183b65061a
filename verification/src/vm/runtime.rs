//! The sandboxes of one host.

use crate::types::{
    is_id, new_id, now_ms, CommandRequest, CommandResult, CreateSandboxRequest, FileEntry,
    SandboxInfo, SnapshotInfo,
};
use crate::vm::backend::{
    bytes_reply, entries_reply, BackendCall, BackendReply, SandboxBackend, SandboxBackendFactory,
};
use crate::vm::control::{drops_snapshot, finds_snapshot,
    check_request, command_refusal, create_refusal, creates, describe, fate, file_refusal, finds,
    forget, idle_fate, lifecycle_verdict, listed, lists_all, moved, new_info, new_snapshot,
    remember, running_error, snapshot_refusal, started_info, target, touched, usable_key,
    ControlPlane, Fate, Lifecycle, Record, Verdict, MAX_FILE_BYTES,
};
use crate::vm::error::{RuntimeError, RuntimeErrorView};
use vstd::prelude::*;

verus! {

// ---------------------------------------------------------------------------
// Outcomes
// ---------------------------------------------------------------------------
pub open spec fn call_of(op: Lifecycle) -> BackendCall {
    match op {
        Lifecycle::Start => BackendCall::Start,
        Lifecycle::Pause => BackendCall::Pause,
        Lifecycle::Resume => BackendCall::Resume,
        Lifecycle::Stop => BackendCall::Stop,
    }
}

/// Nothing but the sandboxes is different.
pub open spec fn same_rest<B>(before: ControlPlane<B>, after: ControlPlane<B>) -> bool {
    after.snapshots == before.snapshots && after.idempotency == before.idempotency
}

/// The operation was refused, and nothing happened.
pub open spec fn refused<B, T>(
    before: ControlPlane<B>,
    after: ControlPlane<B>,
    error: RuntimeErrorView,
    r: Result<T, RuntimeError>,
) -> bool {
    &&& after == before
    &&& r matches Err(e) && e@ == error
}

/// The sandbox with its backend after a call.
pub open spec fn with_backend<B>(
    sandboxes: Map<Seq<char>, Record<B>>,
    id: Seq<char>,
    backend: B,
) -> Map<Seq<char>, Record<B>> {
    sandboxes.insert(id, Record { backend, ..sandboxes[id] })
}

/// The record of a sandbox whose backend was asked to change its state.
pub open spec fn changed_record<B>(
    record: Record<B>,
    op: Lifecycle,
    backend: B,
    reply: BackendReply,
    now: u64,
) -> Record<B> {
    match reply {
        BackendReply::Done => Record {
            info: moved(record.info, target(op), now),
            request: record.request,
            backend,
        },
        _ => Record { backend, ..record },
    }
}

/// The backend was asked to change the state, and its reply was recorded.
pub open spec fn changes_state<B: SandboxBackend>(
    before: Map<Seq<char>, Record<B>>,
    id: Seq<char>,
    op: Lifecycle,
    backend: B,
    reply: BackendReply,
    now: u64,
    after: Map<Seq<char>, Record<B>>,
    r: Result<SandboxInfo, RuntimeError>,
) -> bool {
    &&& B::step(before[id].backend, call_of(op), backend, reply)
    &&& after == before.insert(id, changed_record(before[id], op, backend, reply, now))
    &&& match reply {
        BackendReply::Done => r matches Ok(info) && info@ == after[id].info@,
        BackendReply::Failed(e) => r matches Err(x) && x@ == e,
        _ => false,
    }
}

pub open spec fn lifecycle_outcome<B: SandboxBackend>(
    before: ControlPlane<B>,
    id: Seq<char>,
    op: Lifecycle,
    after: ControlPlane<B>,
    r: Result<SandboxInfo, RuntimeError>,
) -> bool {
    match lifecycle_verdict(before.sandboxes@, id, op) {
        Verdict::Refused(e) => refused(before, after, e, r),
        Verdict::Already => {
            &&& after == before
            &&& r matches Ok(info) && info@ == before.sandboxes@[id].info@
        },
        Verdict::Proceed => {
            &&& same_rest(before, after)
            &&& exists|backend: B, reply: BackendReply, now: u64| #[trigger]
                changes_state(
                    before.sandboxes@,
                    id,
                    op,
                    backend,
                    reply,
                    now,
                    after.sandboxes@,
                    r,
                )
        },
    }
}

/// The backend was called; the sandbox counts as used where it did what was asked.
pub open spec fn calls<B: SandboxBackend>(
    before: Map<Seq<char>, Record<B>>,
    id: Seq<char>,
    call: BackendCall,
    uses: bool,
    backend: B,
    reply: BackendReply,
    now: u64,
    after: Map<Seq<char>, Record<B>>,
) -> bool {
    &&& B::step(before[id].backend, call, backend, reply)
    &&& after == if uses && !(reply is Failed) {
        touched(with_backend(before, id, backend), id, now)
    } else {
        with_backend(before, id, backend)
    }
}

pub open spec fn unit_answer(reply: BackendReply, r: Result<(), RuntimeError>) -> bool {
    match reply {
        BackendReply::Done => r is Ok,
        BackendReply::Failed(e) => r matches Err(x) && x@ == e,
        _ => false,
    }
}

pub open spec fn command_answer(reply: BackendReply, r: Result<CommandResult, RuntimeError>) -> bool {
    match reply {
        BackendReply::Command(c) => r == Ok::<CommandResult, RuntimeError>(c),
        BackendReply::Failed(e) => r matches Err(x) && x@ == e,
        _ => false,
    }
}

pub open spec fn command_outcome<B: SandboxBackend>(
    before: ControlPlane<B>,
    id: Seq<char>,
    request: CommandRequest,
    after: ControlPlane<B>,
    r: Result<CommandResult, RuntimeError>,
) -> bool {
    match command_refusal(before.sandboxes@, id, request) {
        Some(e) => refused(before, after, e, r),
        None => {
            &&& same_rest(before, after)
            &&& exists|backend: B, reply: BackendReply, now: u64|
                #[trigger] calls(
                    before.sandboxes@,
                    id,
                    BackendCall::Run(request),
                    true,
                    backend,
                    reply,
                    now,
                    after.sandboxes@,
                ) && command_answer(reply, r)
        },
    }
}

/// An operation that gives nothing back, refused with an error or carried out.
pub open spec fn unit_outcome<B: SandboxBackend>(
    before: ControlPlane<B>,
    id: Seq<char>,
    refusal: Option<RuntimeErrorView>,
    call: BackendCall,
    uses: bool,
    after: ControlPlane<B>,
    r: Result<(), RuntimeError>,
) -> bool {
    match refusal {
        Some(e) => refused(before, after, e, r),
        None => {
            &&& same_rest(before, after)
            &&& exists|backend: B, reply: BackendReply, now: u64|
                #[trigger] calls(
                    before.sandboxes@,
                    id,
                    call,
                    uses,
                    backend,
                    reply,
                    now,
                    after.sandboxes@,
                ) && unit_answer(reply, r)
        },
    }
}

/// A command was ended, or that was refused.
pub open spec fn kill_outcome<B: SandboxBackend>(
    before: ControlPlane<B>,
    id: Seq<char>,
    command_id: Seq<char>,
    after: ControlPlane<B>,
    r: Result<(), RuntimeError>,
) -> bool {
    unit_outcome(
        before,
        id,
        running_error(before.sandboxes@, id),
        BackendCall::Kill(command_id),
        false,
        after,
        r,
    )
}

/// A file was written, or that was refused.
pub open spec fn write_outcome<B: SandboxBackend>(
    before: ControlPlane<B>,
    id: Seq<char>,
    path: Seq<char>,
    data: Seq<u8>,
    after: ControlPlane<B>,
    r: Result<(), RuntimeError>,
) -> bool {
    unit_outcome(
        before,
        id,
        file_refusal(before.sandboxes@, id, path, true, data.len()),
        BackendCall::Write(path, data),
        true,
        after,
        r,
    )
}

/// A file was removed, or that was refused.
pub open spec fn remove_outcome<B: SandboxBackend>(
    before: ControlPlane<B>,
    id: Seq<char>,
    path: Seq<char>,
    recursive: bool,
    after: ControlPlane<B>,
    r: Result<(), RuntimeError>,
) -> bool {
    unit_outcome(
        before,
        id,
        file_refusal(before.sandboxes@, id, path, true, 0),
        BackendCall::Remove(path, recursive),
        false,
        after,
        r,
    )
}

/// A file was read, or that was refused.
pub open spec fn read_outcome<B: SandboxBackend>(
    plane: ControlPlane<B>,
    id: Seq<char>,
    path: Seq<char>,
    max_bytes: u64,
    r: Result<Vec<u8>, RuntimeError>,
) -> bool {
    match file_refusal(plane.sandboxes@, id, path, false, 0) {
        Some(e) => r matches Err(x) && x@ == e,
        None => B::step(
            plane.sandboxes@[id].backend,
            BackendCall::Read(
                path,
                if max_bytes > MAX_FILE_BYTES {
                    MAX_FILE_BYTES
                } else {
                    max_bytes
                },
            ),
            plane.sandboxes@[id].backend,
            bytes_reply(r),
        ),
    }
}

/// A directory was listed, or that was refused.
pub open spec fn list_outcome<B: SandboxBackend>(
    plane: ControlPlane<B>,
    id: Seq<char>,
    path: Seq<char>,
    r: Result<Vec<FileEntry>, RuntimeError>,
) -> bool {
    match file_refusal(plane.sandboxes@, id, path, false, 0) {
        Some(e) => r matches Err(x) && x@ == e,
        None => B::step(
            plane.sandboxes@[id].backend,
            BackendCall::List(path),
            plane.sandboxes@[id].backend,
            entries_reply(r),
        ),
    }
}

/// The backend destroyed the sandbox, or failed to.
pub open spec fn destroys<B: SandboxBackend>(
    before: ControlPlane<B>,
    id: Seq<char>,
    backend: B,
    reply: BackendReply,
    after: ControlPlane<B>,
    r: Result<(), RuntimeError>,
) -> bool {
    &&& B::step(before.sandboxes@[id].backend, BackendCall::Destroy, backend, reply)
    &&& unit_answer(reply, r)
    &&& if reply is Done {
        struck_off(before, id, after)
    } else {
        same_rest(before, after) && after.sandboxes@ == with_backend(before.sandboxes@, id, backend)
    }
}

/// The sandbox is on no record any more.
pub open spec fn struck_off<B>(before: ControlPlane<B>, id: Seq<char>, after: ControlPlane<B>) -> bool {
    &&& after.sandboxes@ == before.sandboxes@.remove(id)
    &&& after.keys() == forget(before.keys(), id)
    &&& after.snapshots == before.snapshots
}

pub open spec fn destroy_outcome<B: SandboxBackend>(
    before: ControlPlane<B>,
    id: Seq<char>,
    after: ControlPlane<B>,
    r: Result<(), RuntimeError>,
) -> bool {
    if !before.sandboxes@.dom().contains(id) {
        refused(before, after, RuntimeErrorView::NotFound, r)
    } else if before.sandboxes@[id].info.state is Destroyed {
        r is Ok && struck_off(before, id, after)
    } else {
        exists|backend: B, reply: BackendReply| #[trigger]
            destroys(before, id, backend, reply, after, r)
    }
}

/// The backend took a snapshot, or failed to.
pub open spec fn saves<B: SandboxBackend>(
    before: ControlPlane<B>,
    id: Seq<char>,
    snapshot_id: Seq<char>,
    backend: B,
    reply: BackendReply,
    now: u64,
    kept: SnapshotInfo,
    after: ControlPlane<B>,
    r: Result<SnapshotInfo, RuntimeError>,
) -> bool {
    &&& is_id(snapshot_id, "snp"@)
    &&& B::step(before.sandboxes@[id].backend, BackendCall::Snapshot(snapshot_id), backend, reply)
    &&& after.sandboxes@ == with_backend(before.sandboxes@, id, backend)
    &&& after.idempotency == before.idempotency
    &&& match reply {
        BackendReply::Saved(size) => {
            &&& r matches Ok(info) && info@ == new_snapshot(snapshot_id, id, size, now)
            &&& kept@ == new_snapshot(snapshot_id, id, size, now)
            &&& after.snapshots@ == before.snapshots@.insert(snapshot_id, kept)
        },
        BackendReply::Failed(e) => {
            &&& r matches Err(x) && x@ == e
            &&& after.snapshots == before.snapshots
        },
        _ => false,
    }
}

pub open spec fn snapshot_outcome<B: SandboxBackend>(
    before: ControlPlane<B>,
    id: Seq<char>,
    after: ControlPlane<B>,
    r: Result<SnapshotInfo, RuntimeError>,
) -> bool {
    match snapshot_refusal(before.sandboxes@, id) {
        Some(e) => refused(before, after, e, r),
        None => exists|
            snapshot_id: Seq<char>,
            backend: B,
            reply: BackendReply,
            now: u64,
            kept: SnapshotInfo,
        | #[trigger]
            saves(before, id, snapshot_id, backend, reply, now, kept, after, r),
    }
}

/// What was drawn and read for a new sandbox.
pub struct Draw {
    pub sandbox_id: Seq<char>,
    pub session_id: Seq<char>,
    pub now: u64,
}

/// The draw is one for a request: the session is the one asked for, if any.
pub open spec fn is_draw(draw: Draw, request: CreateSandboxRequest) -> bool {
    &&& is_id(draw.sandbox_id, "sbx"@)
    &&& match request.session_id {
        Some(s) => draw.session_id == s@,
        None => is_id(draw.session_id, "ses"@),
    }
}

/// No backend was made.
pub open spec fn makes_none<F: SandboxBackendFactory>(
    factory: F,
    before: ControlPlane<F::Backend>,
    request: CreateSandboxRequest,
    draw: Draw,
    error: RuntimeErrorView,
    after: ControlPlane<F::Backend>,
    r: Result<SandboxInfo, RuntimeError>,
) -> bool {
    &&& is_draw(draw, request)
    &&& factory.made(draw.sandbox_id, request, Err(error))
    &&& refused(before, after, error, r)
}

/// A backend was made and asked to start.
pub open spec fn makes_one<F: SandboxBackendFactory>(
    factory: F,
    before: ControlPlane<F::Backend>,
    request: CreateSandboxRequest,
    key: Option<Seq<char>>,
    draw: Draw,
    made: F::Backend,
    reply: BackendReply,
    record: Record<F::Backend>,
    after: ControlPlane<F::Backend>,
    r: Result<SandboxInfo, RuntimeError>,
) -> bool {
    let info = new_info(draw.sandbox_id, draw.session_id, request, draw.now);
    &&& is_draw(draw, request)
    &&& factory.made(draw.sandbox_id, request, Ok(made))
    &&& <F::Backend as SandboxBackend>::step(made, BackendCall::Start, record.backend, reply)
    &&& after.snapshots == before.snapshots
    &&& match reply {
        BackendReply::Done => {
            &&& creates(
                before.sandboxes@,
                info,
                request,
                record.backend,
                Ok(()),
                record,
                after.sandboxes@,
            )
            &&& after.keys() == remember(before.keys(), key, draw.sandbox_id)
            &&& r matches Ok(i) && i@ == started_info(info, Ok(()))
        },
        BackendReply::Failed(e) => {
            &&& creates(
                before.sandboxes@,
                info,
                request,
                record.backend,
                Err(e),
                record,
                after.sandboxes@,
            )
            &&& after.keys() == before.keys()
            &&& r matches Err(x) && x@ == e
        },
        _ => false,
    }
}

/// The sandbox that a key stands for, if it stands for one.
pub open spec fn found_under<B>(plane: ControlPlane<B>, key: Option<Seq<char>>) -> Option<Seq<char>> {
    match key {
        None => None,
        Some(k) => if plane.keys().dom().contains(k) {
            Some(plane.keys()[k])
        } else {
            None
        },
    }
}

pub open spec fn create_outcome<F: SandboxBackendFactory>(
    factory: F,
    before: ControlPlane<F::Backend>,
    request: CreateSandboxRequest,
    key: Option<Seq<char>>,
    after: ControlPlane<F::Backend>,
    r: Result<SandboxInfo, RuntimeError>,
) -> bool {
    match create_refusal(request) {
        Some(e) => refused(before, after, e, r),
        None => match found_under(before, key) {
            Some(id) => after == before && finds(before.sandboxes@, id, r),
            None => {
                ||| exists|draw: Draw, error: RuntimeErrorView| #[trigger]
                    makes_none(factory, before, request, draw, error, after, r)
                ||| exists|
                    draw: Draw,
                    made: F::Backend,
                    reply: BackendReply,
                    record: Record<F::Backend>,
                | #[trigger]
                    makes_one(factory, before, request, key, draw, made, reply, record, after, r)
            },
        },
    }
}

pub open spec fn lookup<B>(sandboxes: Map<Seq<char>, Record<B>>, id: Seq<char>) -> Option<Record<B>> {
    if sandboxes.dom().contains(id) {
        Some(sandboxes[id])
    } else {
        None
    }
}

/// The backend of an idle sandbox was asked to pause it.
pub open spec fn idles_away<B: SandboxBackend>(
    record: Record<B>,
    backend: B,
    reply: BackendReply,
    now: u64,
    after: Option<Record<B>>,
) -> bool {
    &&& B::step(record.backend, BackendCall::Pause, backend, reply)
    &&& reply is Done || reply is Failed
    &&& after == Some(changed_record(record, Lifecycle::Pause, backend, reply, now))
}

/// The backend of an idle sandbox was asked to destroy it.
pub open spec fn wears_out<B: SandboxBackend>(
    record: Record<B>,
    backend: B,
    reply: BackendReply,
    after: Option<Record<B>>,
) -> bool {
    &&& B::step(record.backend, BackendCall::Destroy, backend, reply)
    &&& reply is Done || reply is Failed
    &&& after == if reply is Done {
        None
    } else {
        Some(Record { backend, ..record })
    }
}

/// What has become of a sandbox once idle ones were dealt with.
pub open spec fn reaped<B: SandboxBackend>(
    record: Record<B>,
    timestamp: u64,
    after: Option<Record<B>>,
) -> bool {
    match fate(record, timestamp) {
        Fate::Stays => after == Some(record),
        Fate::Paused => exists|backend: B, reply: BackendReply, now: u64| #[trigger]
            idles_away(record, backend, reply, now, after),
        Fate::Destroyed => exists|backend: B, reply: BackendReply| #[trigger]
            wears_out(record, backend, reply, after),
    }
}

/// The keys of the sandboxes that are still there.
pub open spec fn surviving_keys<B>(
    keys: Map<Seq<char>, Seq<char>>,
    before: Map<Seq<char>, Record<B>>,
    after: Map<Seq<char>, Record<B>>,
) -> Map<Seq<char>, Seq<char>> {
    Map::new(
        |k: Seq<char>|
            keys.dom().contains(k) && (before.dom().contains(keys[k]) ==> after.dom().contains(
                keys[k],
            )),
        |k: Seq<char>| keys[k],
    )
}

/// Every sandbox was dealt with as far as it has been idle for too long.
pub open spec fn reap_outcome<B: SandboxBackend>(
    before: ControlPlane<B>,
    timestamp: u64,
    after: ControlPlane<B>,
) -> bool {
    &&& after.snapshots == before.snapshots
    &&& forall|id: Seq<char>| #[trigger]
        before.sandboxes@.dom().contains(id) ==> reaped(
            before.sandboxes@[id],
            timestamp,
            lookup(after.sandboxes@, id),
        )
    &&& forall|id: Seq<char>| #[trigger]
        after.sandboxes@.dom().contains(id) ==> before.sandboxes@.dom().contains(id)
    &&& after.keys() == surviving_keys(before.keys(), before.sandboxes@, after.sandboxes@)
}

// ---------------------------------------------------------------------------
// The runtime
// ---------------------------------------------------------------------------
#[derive(Debug)]
pub struct VmRuntime<F: SandboxBackendFactory> {
    pub factory: F,
    pub plane: ControlPlane<F::Backend>,
}

impl<F: SandboxBackendFactory> VmRuntime<F> {
    /// Every sandbox is recorded under its own identifier, and every key leads to one.
    pub open spec fn well_formed(self) -> bool {
        self.plane.sound()
    }

    pub fn new(factory: F) -> (r: Self)
        ensures
            r.factory == factory,
            r.plane.sandboxes@ == Map::<Seq<char>, Record<F::Backend>>::empty(),
            r.plane.snapshots@ == Map::<Seq<char>, SnapshotInfo>::empty(),
            r.plane.keys() == Map::<Seq<char>, Seq<char>>::empty(),
            r.well_formed(),
    {
        let plane: ControlPlane<F::Backend> = ControlPlane::new();
        assert(plane.keys() =~= Map::<Seq<char>, Seq<char>>::empty());
        VmRuntime { factory, plane }
    }

    /// Makes a sandbox and starts it. A request that repeats a key gets the sandbox
    /// that was made under it.
    pub fn create(&mut self, request: CreateSandboxRequest, idempotency_key: Option<&str>) -> (r:
        Result<SandboxInfo, RuntimeError>)
        ensures
            final(self).factory == old(self).factory,
            create_outcome(
                old(self).factory,
                old(self).plane,
                request,
                usable_key(idempotency_key),
                final(self).plane,
                r,
            ),
            old(self).well_formed() ==> final(self).well_formed(),
    {
        if let Err(e) = check_request(&request) {
            return Err(e);
        }
        if let Some(found) = self.plane.created_under(idempotency_key) {
            return found;
        }
        let sandbox_id = new_id("sbx");
        let session_id = match &request.session_id {
            Some(s) => s.clone(),
            None => new_id("ses"),
        };
        let now = now_ms();
        let ghost before = self.plane;
        let ghost draw = Draw { sandbox_id: sandbox_id@, session_id: session_id@, now };
        let ghost key = usable_key(idempotency_key);
        match self.factory.create(sandbox_id.as_str(), &request) {
            Err(e) => {
                assert(makes_none(
                    self.factory,
                    before,
                    request,
                    draw,
                    e@,
                    self.plane,
                    Err::<SandboxInfo, RuntimeError>(e),
                ));
                Err(e)
            },
            Ok(made) => {
                let mut backend = made;
                let info = describe(sandbox_id, session_id, &request, now);
                let started = backend.start();
                let ghost reply = crate::vm::backend::done_reply(started);
                let r = self.plane.finish_create(info, request, backend, started, idempotency_key);
                proof {
                    let started = crate::vm::control::start_view(started);
                    let record = choose|record: Record<F::Backend>| #[trigger]
                        creates(
                            before.sandboxes@,
                            info@,
                            request,
                            backend,
                            started,
                            record,
                            self.plane.sandboxes@,
                        );
                    assert(makes_one(
                        self.factory,
                        before,
                        request,
                        key,
                        draw,
                        made,
                        reply,
                        record,
                        self.plane,
                        r,
                    ));
                    assert(record.info.sandbox_id@ == record.info@.sandbox_id);
                }
                r
            },
        }
    }

    pub fn get(&self, sandbox_id: &str) -> (r: Result<SandboxInfo, RuntimeError>)
        ensures
            finds(self.plane.sandboxes@, sandbox_id@, r),
    {
        self.plane.get(sandbox_id)
    }

    pub fn list(&self) -> (r: Vec<SandboxInfo>)
        requires
            self.well_formed(),
        ensures
            lists_all(self.plane.sandboxes@, r@),
    {
        self.plane.list()
    }

    fn transition(&mut self, sandbox_id: &str, op: Lifecycle) -> (r: Result<
        SandboxInfo,
        RuntimeError,
    >)
        ensures
            final(self).factory == old(self).factory,
            lifecycle_outcome(old(self).plane, sandbox_id@, op, final(self).plane, r),
            old(self).well_formed() ==> final(self).well_formed(),
    {
        match self.plane.begin_lifecycle(sandbox_id, op) {
            Err(e) => {
                return Err(e);
            },
            Ok(Some(info)) => {
                return Ok(info);
            },
            Ok(None) => {},
        }
        let ghost before = self.plane;
        match self.plane.sandboxes.remove(sandbox_id) {
            None => Err(RuntimeError::NotFound),
            Some(record) => {
                let mut backend = record.backend;
                let result = match op {
                    Lifecycle::Start => backend.start(),
                    Lifecycle::Pause => backend.pause(),
                    Lifecycle::Resume => backend.resume(),
                    Lifecycle::Stop => backend.stop(),
                };
                let ghost reply = crate::vm::backend::done_reply(result);
                self.plane.sandboxes.insert(
                    sandbox_id.to_owned(),
                    Record { info: record.info, request: record.request, backend },
                );
                let now = now_ms();
                let r = match result {
                    Err(e) => Err(e),
                    Ok(_) => self.plane.finish_lifecycle(sandbox_id, op, now),
                };
                proof {
                    assert(self.plane.sandboxes@ =~= before.sandboxes@.insert(
                        sandbox_id@,
                        changed_record(before.sandboxes@[sandbox_id@], op, backend, reply, now),
                    ));
                    assert(changes_state(
                        before.sandboxes@,
                        sandbox_id@,
                        op,
                        backend,
                        reply,
                        now,
                        self.plane.sandboxes@,
                        r,
                    ));
                }
                r
            },
        }
    }

    pub fn start(&mut self, sandbox_id: &str) -> (r: Result<SandboxInfo, RuntimeError>)
        ensures
            final(self).factory == old(self).factory,
            lifecycle_outcome(old(self).plane, sandbox_id@, Lifecycle::Start, final(self).plane, r),
            old(self).well_formed() ==> final(self).well_formed(),
    {
        self.transition(sandbox_id, Lifecycle::Start)
    }

    pub fn pause(&mut self, sandbox_id: &str) -> (r: Result<SandboxInfo, RuntimeError>)
        ensures
            final(self).factory == old(self).factory,
            lifecycle_outcome(old(self).plane, sandbox_id@, Lifecycle::Pause, final(self).plane, r),
            old(self).well_formed() ==> final(self).well_formed(),
    {
        self.transition(sandbox_id, Lifecycle::Pause)
    }

    pub fn resume(&mut self, sandbox_id: &str) -> (r: Result<SandboxInfo, RuntimeError>)
        ensures
            final(self).factory == old(self).factory,
            lifecycle_outcome(old(self).plane, sandbox_id@, Lifecycle::Resume, final(self).plane, r),
            old(self).well_formed() ==> final(self).well_formed(),
    {
        self.transition(sandbox_id, Lifecycle::Resume)
    }

    pub fn stop(&mut self, sandbox_id: &str) -> (r: Result<SandboxInfo, RuntimeError>)
        ensures
            final(self).factory == old(self).factory,
            lifecycle_outcome(old(self).plane, sandbox_id@, Lifecycle::Stop, final(self).plane, r),
            old(self).well_formed() ==> final(self).well_formed(),
    {
        self.transition(sandbox_id, Lifecycle::Stop)
    }

    pub fn destroy(&mut self, sandbox_id: &str) -> (r: Result<(), RuntimeError>)
        ensures
            final(self).factory == old(self).factory,
            destroy_outcome(old(self).plane, sandbox_id@, final(self).plane, r),
            old(self).well_formed() ==> final(self).well_formed(),
    {
        let ghost before = self.plane;
        match self.plane.begin_destroy(sandbox_id) {
            Err(e) => {
                return Err(e);
            },
            Ok(false) => {
                self.plane.finish_destroy(sandbox_id);
                return Ok(());
            },
            Ok(true) => {},
        }
        match self.plane.sandboxes.remove(sandbox_id) {
            None => Err(RuntimeError::NotFound),
            Some(record) => {
                let mut backend = record.backend;
                let result = backend.destroy();
                let ghost reply = crate::vm::backend::done_reply(result);
                match result {
                    Err(e) => {
                        self.plane.sandboxes.insert(
                            sandbox_id.to_owned(),
                            Record { info: record.info, request: record.request, backend },
                        );
                        proof {
                            assert(self.plane.sandboxes@ =~= with_backend(
                                before.sandboxes@,
                                sandbox_id@,
                                backend,
                            ));
                            assert(destroys(
                                before,
                                sandbox_id@,
                                backend,
                                reply,
                                self.plane,
                                Err::<(), RuntimeError>(e),
                            ));
                        }
                        Err(e)
                    },
                    Ok(_) => {
                        self.plane.finish_destroy(sandbox_id);
                        proof {
                            assert(self.plane.sandboxes@ =~= before.sandboxes@.remove(sandbox_id@));
                            assert(destroys(
                                before,
                                sandbox_id@,
                                backend,
                                reply,
                                self.plane,
                                Ok::<(), RuntimeError>(()),
                            ));
                        }
                        Ok(())
                    },
                }
            },
        }
    }

    pub fn run_command(&mut self, sandbox_id: &str, request: CommandRequest) -> (r: Result<
        CommandResult,
        RuntimeError,
    >)
        ensures
            final(self).factory == old(self).factory,
            command_outcome(old(self).plane, sandbox_id@, request, final(self).plane, r),
            old(self).well_formed() ==> final(self).well_formed(),
    {
        if let Err(e) = self.plane.begin_command(sandbox_id, &request) {
            return Err(e);
        }
        let ghost before = self.plane;
        match self.plane.sandboxes.remove(sandbox_id) {
            None => Err(RuntimeError::NotFound),
            Some(record) => {
                let mut backend = record.backend;
                let result = backend.run_command(request);
                let ghost reply = crate::vm::backend::command_reply(result);
                self.plane.sandboxes.insert(
                    sandbox_id.to_owned(),
                    Record { info: record.info, request: record.request, backend },
                );
                assert(self.plane.sandboxes@ =~= with_backend(
                    before.sandboxes@,
                    sandbox_id@,
                    backend,
                ));
                let now = now_ms();
                if result.is_ok() {
                    self.plane.finish_use(sandbox_id, now);
                }
                proof {
                    assert(calls(
                        before.sandboxes@,
                        sandbox_id@,
                        BackendCall::Run(request),
                        true,
                        backend,
                        reply,
                        now,
                        self.plane.sandboxes@,
                    ));
                }
                result
            },
        }
    }

    pub fn kill_command(&mut self, sandbox_id: &str, command_id: &str) -> (r: Result<
        (),
        RuntimeError,
    >)
        ensures
            final(self).factory == old(self).factory,
            kill_outcome(old(self).plane, sandbox_id@, command_id@, final(self).plane, r),
            old(self).well_formed() ==> final(self).well_formed(),
    {
        if let Err(e) = self.plane.begin_kill(sandbox_id) {
            return Err(e);
        }
        let ghost before = self.plane;
        match self.plane.sandboxes.remove(sandbox_id) {
            None => Err(RuntimeError::NotFound),
            Some(record) => {
                let mut backend = record.backend;
                let result = backend.kill_command(command_id);
                let ghost reply = crate::vm::backend::done_reply(result);
                self.plane.sandboxes.insert(
                    sandbox_id.to_owned(),
                    Record { info: record.info, request: record.request, backend },
                );
                proof {
                    assert(self.plane.sandboxes@ =~= with_backend(
                        before.sandboxes@,
                        sandbox_id@,
                        backend,
                    ));
                    assert(calls(
                        before.sandboxes@,
                        sandbox_id@,
                        BackendCall::Kill(command_id@),
                        false,
                        backend,
                        reply,
                        0,
                        self.plane.sandboxes@,
                    ));
                }
                result
            },
        }
    }

    pub fn read_file(&self, sandbox_id: &str, path: &str, max_bytes: u64) -> (r: Result<
        Vec<u8>,
        RuntimeError,
    >)
        ensures
            read_outcome(self.plane, sandbox_id@, path@, max_bytes, r),
    {
        if let Err(e) = self.plane.begin_file(sandbox_id, path, false, 0) {
            return Err(e);
        }
        match self.plane.sandboxes.get(sandbox_id) {
            None => Err(RuntimeError::NotFound),
            Some(record) => {
                let max: u64 = if max_bytes > MAX_FILE_BYTES {
                    MAX_FILE_BYTES
                } else {
                    max_bytes
                };
                record.backend.read_file(path, max)
            },
        }
    }

    pub fn write_file(&mut self, sandbox_id: &str, path: &str, data: &[u8]) -> (r: Result<
        (),
        RuntimeError,
    >)
        ensures
            final(self).factory == old(self).factory,
            write_outcome(old(self).plane, sandbox_id@, path@, data@, final(self).plane, r),
            old(self).well_formed() ==> final(self).well_formed(),
    {
        if let Err(e) = self.plane.begin_file(sandbox_id, path, true, data.len()) {
            return Err(e);
        }
        let ghost before = self.plane;
        match self.plane.sandboxes.remove(sandbox_id) {
            None => Err(RuntimeError::NotFound),
            Some(record) => {
                let mut backend = record.backend;
                let result = backend.write_file(path, data);
                let ghost reply = crate::vm::backend::done_reply(result);
                self.plane.sandboxes.insert(
                    sandbox_id.to_owned(),
                    Record { info: record.info, request: record.request, backend },
                );
                assert(self.plane.sandboxes@ =~= with_backend(
                    before.sandboxes@,
                    sandbox_id@,
                    backend,
                ));
                let now = now_ms();
                if result.is_ok() {
                    self.plane.finish_use(sandbox_id, now);
                }
                proof {
                    assert(calls(
                        before.sandboxes@,
                        sandbox_id@,
                        BackendCall::Write(path@, data@),
                        true,
                        backend,
                        reply,
                        now,
                        self.plane.sandboxes@,
                    ));
                }
                result
            },
        }
    }

    pub fn list_dir(&self, sandbox_id: &str, path: &str) -> (r: Result<Vec<FileEntry>, RuntimeError>)
        ensures
            list_outcome(self.plane, sandbox_id@, path@, r),
    {
        if let Err(e) = self.plane.begin_file(sandbox_id, path, false, 0) {
            return Err(e);
        }
        match self.plane.sandboxes.get(sandbox_id) {
            None => Err(RuntimeError::NotFound),
            Some(record) => record.backend.list_dir(path),
        }
    }

    pub fn remove(&mut self, sandbox_id: &str, path: &str, recursive: bool) -> (r: Result<
        (),
        RuntimeError,
    >)
        ensures
            final(self).factory == old(self).factory,
            remove_outcome(old(self).plane, sandbox_id@, path@, recursive, final(self).plane, r),
            old(self).well_formed() ==> final(self).well_formed(),
    {
        if let Err(e) = self.plane.begin_file(sandbox_id, path, true, 0) {
            return Err(e);
        }
        let ghost before = self.plane;
        match self.plane.sandboxes.remove(sandbox_id) {
            None => Err(RuntimeError::NotFound),
            Some(record) => {
                let mut backend = record.backend;
                let result = backend.remove(path, recursive);
                let ghost reply = crate::vm::backend::done_reply(result);
                self.plane.sandboxes.insert(
                    sandbox_id.to_owned(),
                    Record { info: record.info, request: record.request, backend },
                );
                proof {
                    assert(self.plane.sandboxes@ =~= with_backend(
                        before.sandboxes@,
                        sandbox_id@,
                        backend,
                    ));
                    assert(calls(
                        before.sandboxes@,
                        sandbox_id@,
                        BackendCall::Remove(path@, recursive),
                        false,
                        backend,
                        reply,
                        0,
                        self.plane.sandboxes@,
                    ));
                }
                result
            },
        }
    }

    pub fn create_snapshot(&mut self, sandbox_id: &str) -> (r: Result<SnapshotInfo, RuntimeError>)
        ensures
            final(self).factory == old(self).factory,
            snapshot_outcome(old(self).plane, sandbox_id@, final(self).plane, r),
            old(self).well_formed() ==> final(self).well_formed(),
    {
        if let Err(e) = self.plane.begin_snapshot(sandbox_id) {
            return Err(e);
        }
        let ghost before = self.plane;
        let snapshot_id = new_id("snp");
        match self.plane.sandboxes.remove(sandbox_id) {
            None => Err(RuntimeError::NotFound),
            Some(record) => {
                let mut backend = record.backend;
                let result = backend.snapshot(snapshot_id.as_str());
                let ghost reply = crate::vm::backend::saved_reply(result);
                self.plane.sandboxes.insert(
                    sandbox_id.to_owned(),
                    Record { info: record.info, request: record.request, backend },
                );
                assert(self.plane.sandboxes@ =~= with_backend(
                    before.sandboxes@,
                    sandbox_id@,
                    backend,
                ));
                let ghost drawn = snapshot_id@;
                match result {
                    Err(e) => {
                        proof {
                            let kept = before.snapshots@[drawn];
                            assert(saves(
                                before,
                                sandbox_id@,
                                drawn,
                                backend,
                                reply,
                                0,
                                kept,
                                self.plane,
                                Err::<SnapshotInfo, RuntimeError>(e),
                            ));
                        }
                        Err(e)
                    },
                    Ok(saved) => {
                        let now = now_ms();
                        let info = self.plane.finish_snapshot(
                            sandbox_id,
                            snapshot_id,
                            saved.size_bytes,
                            now,
                        );
                        proof {
                            let kept = choose|kept: SnapshotInfo|
                                kept@ == info@ && self.plane.snapshots@
                                    == #[trigger] before.snapshots@.insert(drawn, kept);
                            assert(saves(
                                before,
                                sandbox_id@,
                                drawn,
                                backend,
                                reply,
                                now,
                                kept,
                                self.plane,
                                Ok::<SnapshotInfo, RuntimeError>(info),
                            ));
                        }
                        Ok(info)
                    },
                }
            },
        }
    }

    pub fn get_snapshot(&self, snapshot_id: &str) -> (r: Result<SnapshotInfo, RuntimeError>)
        ensures
            finds_snapshot(self.plane.snapshots@, snapshot_id@, r),
    {
        self.plane.get_snapshot(snapshot_id)
    }

    pub fn delete_snapshot(&mut self, snapshot_id: &str) -> (r: Result<(), RuntimeError>)
        ensures
            final(self).factory == old(self).factory,
            drops_snapshot(
                old(self).plane.snapshots@,
                snapshot_id@,
                final(self).plane.snapshots@,
                r,
            ),
            final(self).plane.sandboxes == old(self).plane.sandboxes,
            final(self).plane.idempotency == old(self).plane.idempotency,
            old(self).well_formed() ==> final(self).well_formed(),
    {
        self.plane.delete_snapshot(snapshot_id)
    }

    /// Deals with one sandbox, as far as it has been idle for too long.
    fn reap_one(&mut self, sandbox_id: &str, timestamp_ms: u64)
        requires
            old(self).well_formed(),
            old(self).plane.sandboxes@.dom().contains(sandbox_id@),
        ensures
            final(self).factory == old(self).factory,
            final(self).well_formed(),
            final(self).plane.snapshots == old(self).plane.snapshots,
            reaped(
                old(self).plane.sandboxes@[sandbox_id@],
                timestamp_ms,
                lookup(final(self).plane.sandboxes@, sandbox_id@),
            ),
            forall|other: Seq<char>|
                other != sandbox_id@ ==> #[trigger] lookup(final(self).plane.sandboxes@, other)
                    == lookup(old(self).plane.sandboxes@, other),
            final(self).plane.keys() == surviving_keys(
                old(self).plane.keys(),
                old(self).plane.sandboxes@,
                final(self).plane.sandboxes@,
            ),
    {
        let ghost before = self.plane;
        let ghost id = sandbox_id@;
        match self.plane.sandboxes.get(sandbox_id) {
            None => {},
            Some(record) => match idle_fate(record, timestamp_ms) {
                Fate::Stays => {},
                Fate::Paused => {
                    let r = self.pause(sandbox_id);
                    proof {
                        let (backend, reply, now) = choose|
                            backend: F::Backend,
                            reply: BackendReply,
                            now: u64,
                        | #[trigger]
                            changes_state(
                                before.sandboxes@,
                                id,
                                Lifecycle::Pause,
                                backend,
                                reply,
                                now,
                                self.plane.sandboxes@,
                                r,
                            );
                        assert(idles_away(
                            before.sandboxes@[id],
                            backend,
                            reply,
                            now,
                            lookup(self.plane.sandboxes@, id),
                        ));
                    }
                },
                Fate::Destroyed => {
                    let r = self.destroy(sandbox_id);
                    proof {
                        let (backend, reply) = choose|backend: F::Backend, reply: BackendReply|
                            #[trigger]
                            destroys(before, id, backend, reply, self.plane, r);
                        assert(wears_out(
                            before.sandboxes@[id],
                            backend,
                            reply,
                            lookup(self.plane.sandboxes@, id),
                        ));
                    }
                },
            },
        }
        assert(self.plane.keys() =~= surviving_keys(
            before.keys(),
            before.sandboxes@,
            self.plane.sandboxes@,
        ));
    }

    /// Pauses or destroys the sandboxes that have been idle for too long.
    pub fn reap_idle(&mut self, timestamp_ms: u64)
        requires
            old(self).well_formed(),
        ensures
            final(self).factory == old(self).factory,
            final(self).well_formed(),
            reap_outcome(old(self).plane, timestamp_ms, final(self).plane),
    {
        let all = self.plane.list();
        let ghost first = self.plane;
        let ghost start = first.sandboxes@;
        assert(self.plane.keys() =~= surviving_keys(first.keys(), start, start));
        for i in 0..all.len()
            invariant
                start == first.sandboxes@,
                lists_all(start, all@),
                self.factory == old(self).factory,
                self.well_formed(),
                self.plane.snapshots == first.snapshots,
                forall|id: Seq<char>| #[trigger]
                    start.dom().contains(id) && listed(all@.take(i as int), id) ==> reaped(
                        start[id],
                        timestamp_ms,
                        lookup(self.plane.sandboxes@, id),
                    ),
                forall|id: Seq<char>|
                    !listed(all@.take(i as int), id) ==> #[trigger] lookup(
                        self.plane.sandboxes@,
                        id,
                    ) == lookup(start, id),
                forall|id: Seq<char>| #[trigger]
                    self.plane.sandboxes@.dom().contains(id) ==> start.dom().contains(id),
                self.plane.keys() == surviving_keys(first.keys(), start, self.plane.sandboxes@),
        {
            let ghost id = all@[i as int].sandbox_id@;
            let ghost middle = self.plane;
            proof {
                if listed(all@.take(i as int), id) {
                    let j = choose|j: int|
                        0 <= j < i && (#[trigger] all@.take(i as int)[j]).sandbox_id@ == id;
                    assert(all@[j].sandbox_id@ == id);
                }
                assert(lookup(middle.sandboxes@, id) == lookup(start, id));
            }
            self.reap_one(all[i].sandbox_id.as_str(), timestamp_ms);
            proof {
                let done = all@.take(i as int);
                let next = all@.take(i + 1);
                let now = self.plane.sandboxes@;
                assert(next[i as int].sandbox_id@ == id);
                assert forall|other: Seq<char>| #[trigger]
                    listed(next, other) implies listed(done, other) || other == id by {
                    let j = choose|j: int|
                        0 <= j < next.len() && (#[trigger] next[j]).sandbox_id@ == other;
                    if j < i {
                        assert(done[j].sandbox_id@ == other);
                    }
                }
                assert forall|other: Seq<char>| #[trigger] listed(done, other) implies listed(
                    next,
                    other,
                ) by {
                    let j = choose|j: int|
                        0 <= j < done.len() && (#[trigger] done[j]).sandbox_id@ == other;
                    assert(next[j].sandbox_id@ == other);
                }
                assert(listed(next, id));
                assert forall|other: Seq<char>| #[trigger]
                    start.dom().contains(other) && listed(next, other) implies reaped(
                    start[other],
                    timestamp_ms,
                    lookup(now, other),
                ) by {
                    if other != id {
                        assert(lookup(now, other) == lookup(middle.sandboxes@, other));
                    }
                }
                assert forall|other: Seq<char>| !listed(next, other) implies #[trigger] lookup(
                    now,
                    other,
                ) == lookup(start, other) by {
                    assert(lookup(middle.sandboxes@, other) == lookup(start, other));
                }
                assert forall|other: Seq<char>| #[trigger]
                    now.dom().contains(other) implies start.dom().contains(other) by {
                    if other != id {
                        assert(lookup(now, other) == lookup(middle.sandboxes@, other));
                        assert(middle.sandboxes@.dom().contains(other));
                    }
                }
                assert(self.plane.keys() =~= surviving_keys(first.keys(), start, now)) by {
                    assert forall|k: Seq<char>|
                        self.plane.keys().dom().contains(k) <==> surviving_keys(
                            first.keys(),
                            start,
                            now,
                        ).dom().contains(k) by {
                        let other = first.keys()[k];
                        assert(other != id ==> lookup(now, other) == lookup(
                            middle.sandboxes@,
                            other,
                        ));
                    }
                }
            }
        }
        proof {
            assert(all@.take(all@.len() as int) =~= all@);
        }
    }
}

} // verus!
