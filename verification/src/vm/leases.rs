//! How long a sandbox is left alone: when it counts as used, when it counts as idle,
//! and what is done about it then.

use crate::types::{CommandRequest, CommandResult, CreateSandboxRequest, SandboxInfo, SandboxState};
use crate::vm::backend::{BackendCall, BackendReply, SandboxBackend, SandboxBackendFactory};
use crate::vm::control::{touched, ControlPlane, Lifecycle, Record};
use crate::vm::error::RuntimeError;
use crate::vm::runtime::{
    calls, changes_state, command_answer, command_outcome, create_outcome, idles_away, kill_outcome,
    lifecycle_outcome, lookup, makes_none, makes_one, reap_outcome, reaped, remove_outcome,
    unit_answer, wears_out, write_outcome, Draw,
};
use vstd::prelude::*;

verus! {

/// The sandbox may be left alone for so many seconds from `now` on, as far as that can
/// be counted.
pub open spec fn leased(info: SandboxInfo, now: u64, seconds: u64) -> bool {
    &&& info.last_active_at_ms == now
    &&& info.expires_at_ms <= now + 1000 * seconds
    &&& info.expires_at_ms == now + 1000 * seconds || info.expires_at_ms == u64::MAX
}

/// Using a sandbox lets it be left alone for its whole time again, and changes nothing
/// else about it or any other.
pub proof fn law_touch_renews_the_lease<B>(
    sandboxes: Map<Seq<char>, Record<B>>,
    id: Seq<char>,
    now: u64,
)
    requires
        sandboxes.dom().contains(id),
    ensures
        ({
            let before = sandboxes[id];
            let after = touched(sandboxes, id, now)[id];
            &&& leased(after.info, now, before.request.timeout_seconds)
            &&& after.info.state == before.info.state
            &&& after.info.sandbox_id == before.info.sandbox_id
            &&& after.info.created_at_ms == before.info.created_at_ms
            &&& after.info.has_secrets == before.info.has_secrets
            &&& after.request == before.request
            &&& after.backend == before.backend
        }),
        forall|other: Seq<char>|
            other != id ==> #[trigger] lookup(touched(sandboxes, id, now), other) == lookup(
                sandboxes,
                other,
            ),
{
}

/// A command that ran, or a file that was written, renews the lease.
pub proof fn law_use_renews_the_lease<B: SandboxBackend>(
    before: ControlPlane<B>,
    id: Seq<char>,
    after: ControlPlane<B>,
    command: CommandRequest,
    ran: CommandResult,
    path: Seq<char>,
    data: Seq<u8>,
)
    requires
        command_outcome(before, id, command, after, Ok(ran)) || write_outcome(
            before,
            id,
            path,
            data,
            after,
            Ok(()),
        ),
    ensures
        before.sandboxes@.dom().contains(id),
        after.sandboxes@.dom().contains(id),
        after.sandboxes@[id].info.state is Running,
        after.sandboxes@[id].request == before.sandboxes@[id].request,
        exists|now: u64| #[trigger]
            leased(after.sandboxes@[id].info, now, before.sandboxes@[id].request.timeout_seconds),
{
    if command_outcome(before, id, command, after, Ok(ran)) {
        let (backend, reply, now) = choose|backend: B, reply: BackendReply, now: u64|
            #[trigger] calls(
                before.sandboxes@,
                id,
                BackendCall::Run(command),
                true,
                backend,
                reply,
                now,
                after.sandboxes@,
            ) && command_answer(reply, Ok(ran));
        assert(leased(
            after.sandboxes@[id].info,
            now,
            before.sandboxes@[id].request.timeout_seconds,
        ));
    } else {
        let (backend, reply, now) = choose|backend: B, reply: BackendReply, now: u64|
            #[trigger] calls(
                before.sandboxes@,
                id,
                BackendCall::Write(path, data),
                true,
                backend,
                reply,
                now,
                after.sandboxes@,
            ) && unit_answer(reply, Ok(()));
        assert(leased(
            after.sandboxes@[id].info,
            now,
            before.sandboxes@[id].request.timeout_seconds,
        ));
    }
}

/// Ending a command, removing a file, and whatever failed do not count as use.
pub proof fn law_other_calls_keep_the_lease<B: SandboxBackend>(
    before: ControlPlane<B>,
    id: Seq<char>,
    after: ControlPlane<B>,
    command: CommandRequest,
    command_id: Seq<char>,
    path: Seq<char>,
    data: Seq<u8>,
    recursive: bool,
    error: RuntimeError,
    done: Result<(), RuntimeError>,
)
    requires
        before.sandboxes@.dom().contains(id),
        kill_outcome(before, id, command_id, after, done) || remove_outcome(
            before,
            id,
            path,
            recursive,
            after,
            done,
        ) || command_outcome(before, id, command, after, Err(error)) || write_outcome(
            before,
            id,
            path,
            data,
            after,
            Err(error),
        ),
    ensures
        after.sandboxes@.dom().contains(id),
        after.sandboxes@[id].info == before.sandboxes@[id].info,
{
}

/// A new sandbox may be left alone for the time that its request asks for.
pub proof fn law_new_sandboxes_have_a_lease<F: SandboxBackendFactory>(
    factory: F,
    before: ControlPlane<F::Backend>,
    request: CreateSandboxRequest,
    after: ControlPlane<F::Backend>,
    made: SandboxInfo,
)
    requires
        create_outcome(factory, before, request, None, after, Ok(made)),
    ensures
        made.state is Running,
        leased(made, made.created_at_ms, request.timeout_seconds),
        made.has_secrets <==> request.secrets@.dom().len() > 0,
        made.resources == request.resources,
        1 <= request.timeout_seconds <= 86400,
        after.sandboxes@.dom().contains(made.sandbox_id@),
        after.sandboxes@[made.sandbox_id@].info@ == made@,
        after.sandboxes@[made.sandbox_id@].request == request,
{
    let r = Ok::<SandboxInfo, RuntimeError>(made);
    assert forall|draw: Draw, error: crate::vm::error::RuntimeErrorView| !#[trigger] makes_none(
        factory,
        before,
        request,
        draw,
        error,
        after,
        r,
    ) by {}
    let (draw, backend, reply, record) = choose|
        draw: Draw,
        backend: F::Backend,
        reply: BackendReply,
        record: Record<F::Backend>,
    | #[trigger]
        makes_one(factory, before, request, None, draw, backend, reply, record, after, r);
    assert(made.sandbox_id@ == made@.sandbox_id);
    assert(made.state == made@.state);
    assert(made.expires_at_ms == made@.expires_at_ms);
    assert(made.last_active_at_ms == made@.last_active_at_ms);
    assert(made.created_at_ms == made@.created_at_ms);
    assert(after.sandboxes@[draw.sandbox_id] == record);
}

/// No sandbox is paused or destroyed for being idle before its lease is over, nor one
/// that does not run.
pub proof fn law_leases_are_respected<B: SandboxBackend>(
    before: ControlPlane<B>,
    timestamp: u64,
    after: ControlPlane<B>,
    id: Seq<char>,
)
    requires
        reap_outcome(before, timestamp, after),
        before.sandboxes@.dom().contains(id),
        timestamp < before.sandboxes@[id].info.expires_at_ms || !(
        before.sandboxes@[id].info.state is Running),
    ensures
        after.sandboxes@.dom().contains(id),
        after.sandboxes@[id] == before.sandboxes@[id],
{
    assert(lookup(after.sandboxes@, id) == Some(before.sandboxes@[id]));
}

/// A sandbox that was used is not touched by a reap before its time has passed since.
pub proof fn law_used_sandboxes_are_not_reaped<B: SandboxBackend>(
    before: ControlPlane<B>,
    id: Seq<char>,
    between: ControlPlane<B>,
    command: CommandRequest,
    ran: CommandResult,
    path: Seq<char>,
    data: Seq<u8>,
    timestamp: u64,
    after: ControlPlane<B>,
)
    requires
        command_outcome(before, id, command, between, Ok(ran)) || write_outcome(
            before,
            id,
            path,
            data,
            between,
            Ok(()),
        ),
        reap_outcome(between, timestamp, after),
        timestamp < u64::MAX,
        timestamp < between.sandboxes@[id].info.last_active_at_ms + 1000
            * before.sandboxes@[id].request.timeout_seconds,
    ensures
        after.sandboxes@.dom().contains(id),
        after.sandboxes@[id] == between.sandboxes@[id],
{
    law_use_renews_the_lease(before, id, between, command, ran, path, data);
    let now = choose|now: u64| #[trigger]
        leased(between.sandboxes@[id].info, now, before.sandboxes@[id].request.timeout_seconds);
    law_leases_are_respected(between, timestamp, after, id);
}

/// A sandbox was paused, where its request asks for that and it holds no secrets, or
/// destroyed; a backend that failed leaves it as it is.
pub open spec fn winds_up<B: SandboxBackend>(
    record: Record<B>,
    backend: B,
    reply: BackendReply,
    after: Option<Record<B>>,
) -> bool {
    if record.request.idle_action is Pause && !record.info.has_secrets {
        &&& B::step(record.backend, BackendCall::Pause, backend, reply)
        &&& after matches Some(kept) && kept.backend == backend && if reply is Done {
            kept.info.state is Paused
        } else {
            kept.info == record.info
        }
    } else {
        &&& B::step(record.backend, BackendCall::Destroy, backend, reply)
        &&& reply is Done ==> after is None
        &&& !(reply is Done) ==> (after matches Some(kept) && kept.info == record.info)
    }
}

/// A running sandbox whose lease is over is dealt with as its request asks: it is saved
/// by a pause where it may be, and is gone otherwise. Only a backend that fails leaves
/// it running.
pub proof fn law_idle_sandboxes_are_reaped<B: SandboxBackend>(
    before: ControlPlane<B>,
    timestamp: u64,
    after: ControlPlane<B>,
    id: Seq<char>,
)
    requires
        reap_outcome(before, timestamp, after),
        before.sandboxes@.dom().contains(id),
        before.sandboxes@[id].info.state is Running,
        before.sandboxes@[id].info.expires_at_ms <= timestamp,
    ensures
        exists|backend: B, reply: BackendReply| #[trigger]
            winds_up(before.sandboxes@[id], backend, reply, lookup(after.sandboxes@, id)),
{
    let record = before.sandboxes@[id];
    let now_there = lookup(after.sandboxes@, id);
    assert(reaped(record, timestamp, now_there));
    if record.request.idle_action is Pause && !record.info.has_secrets {
        let (backend, reply, now) = choose|backend: B, reply: BackendReply, now: u64| #[trigger]
            idles_away(record, backend, reply, now, now_there);
        assert(winds_up(record, backend, reply, now_there));
    } else {
        let (backend, reply) = choose|backend: B, reply: BackendReply| #[trigger]
            wears_out(record, backend, reply, now_there);
        assert(winds_up(record, backend, reply, now_there));
    }
}

/// The call that a change of state is named for.
pub open spec fn named_call(op: Lifecycle) -> BackendCall {
    match op {
        Lifecycle::Start => BackendCall::Start,
        Lifecycle::Pause => BackendCall::Pause,
        Lifecycle::Resume => BackendCall::Resume,
        Lifecycle::Stop => BackendCall::Stop,
    }
}

/// A change of state that was carried out ends in the state that it is named for, at
/// the backend as well as on record, and does not move the end of the lease.
pub proof fn law_changes_end_in_their_state<B: SandboxBackend>(
    before: ControlPlane<B>,
    id: Seq<char>,
    op: Lifecycle,
    after: ControlPlane<B>,
    info: SandboxInfo,
)
    requires
        lifecycle_outcome(before, id, op, after, Ok(info)),
    ensures
        before.sandboxes@.dom().contains(id),
        after.sandboxes@.dom().contains(id),
        after.sandboxes@[id].info@ == info@,
        match op {
            Lifecycle::Start | Lifecycle::Resume => info.state is Running,
            Lifecycle::Pause => info.state is Paused,
            Lifecycle::Stop => info.state is Stopped,
        },
        info.expires_at_ms == before.sandboxes@[id].info.expires_at_ms,
        info.created_at_ms == before.sandboxes@[id].info.created_at_ms,
        after.sandboxes@[id].request == before.sandboxes@[id].request,
        ({
            let record = before.sandboxes@[id];
            record.info.state != info.state ==> B::step(
                record.backend,
                named_call(op),
                after.sandboxes@[id].backend,
                BackendReply::Done,
            )
        }),
{
    assert(info.state == info@.state);
    assert(info.expires_at_ms == info@.expires_at_ms);
    assert(info.created_at_ms == info@.created_at_ms);
    let old_info = before.sandboxes@[id].info;
    assert(old_info@.state == old_info.state);
    if old_info.state != info.state {
        let r = Ok::<SandboxInfo, RuntimeError>(info);
        let (backend, reply, now) = choose|backend: B, reply: BackendReply, now: u64| #[trigger]
            changes_state(before.sandboxes@, id, op, backend, reply, now, after.sandboxes@, r);
        assert(reply is Done);
    }
}

/// Only a running sandbox is paused, only a paused one resumed, only a stopped one
/// started, and only one of the first two stopped; whatever is in the state already is
/// left alone, but for a second pause, which is refused.
pub proof fn law_changes_begin_in_their_state<B: SandboxBackend>(
    before: ControlPlane<B>,
    id: Seq<char>,
    op: Lifecycle,
    after: ControlPlane<B>,
    r: Result<SandboxInfo, RuntimeError>,
)
    requires
        lifecycle_outcome(before, id, op, after, r),
        before.sandboxes@.dom().contains(id),
        !(after == before),
    ensures
        match op {
            Lifecycle::Start => before.sandboxes@[id].info.state is Stopped,
            Lifecycle::Pause => before.sandboxes@[id].info.state is Running
                && !before.sandboxes@[id].info.has_secrets,
            Lifecycle::Resume => before.sandboxes@[id].info.state is Paused,
            Lifecycle::Stop => before.sandboxes@[id].info.state is Running
                || before.sandboxes@[id].info.state is Paused,
        },
{
}

/// Nothing runs in, is read from or written to a sandbox that does not run.
pub proof fn law_only_running_sandboxes_are_used<B: SandboxBackend>(
    before: ControlPlane<B>,
    id: Seq<char>,
    after: ControlPlane<B>,
    command: CommandRequest,
    command_id: Seq<char>,
    path: Seq<char>,
    data: Seq<u8>,
    recursive: bool,
    ran: Result<CommandResult, RuntimeError>,
    done: Result<(), RuntimeError>,
)
    requires
        !before.sandboxes@.dom().contains(id) || !(before.sandboxes@[id].info.state
            == SandboxState::Running),
    ensures
        command_outcome(before, id, command, after, ran) ==> after == before && ran is Err,
        kill_outcome(before, id, command_id, after, done) ==> after == before && done is Err,
        write_outcome(before, id, path, data, after, done) ==> after == before && done is Err,
        remove_outcome(before, id, path, recursive, after, done) ==> after == before && done is Err,
{
}

} // verus!
