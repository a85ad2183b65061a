//! What the calls on sandboxes hand on and give back.

use crate::table::{distinct_keys, entries_map};
use crate::text::{joined, starts_with, texts};
use crate::types::{
    is_id, CommandRequest, CommandResult, CreateSandboxRequest, FileEntry, SandboxInfo,
    SandboxState, SnapshotInfo,
};
use crate::vm::backend::{
    entries_reply, BackendCall, BackendReply, SandboxBackend, SandboxBackendFactory,
};
use crate::vm::control::{drops_snapshot, finds_snapshot, moved, ControlPlane, Record};
use crate::vm::error::{error_text, RuntimeError, RuntimeErrorView};
use crate::vm::memory::{below, contents, total_size, InMemoryBackend};
use crate::vm::runtime::{
    calls, command_answer, command_outcome, create_outcome, kill_outcome, list_outcome, makes_none,
    makes_one, remove_outcome, saves, snapshot_outcome, unit_answer, write_outcome, Draw,
};
use vstd::prelude::*;
use vstd::utf8::encode_utf8;

verus! {

/// The sandbox is there and runs.
pub open spec fn runs<B>(plane: ControlPlane<B>, id: Seq<char>) -> bool {
    plane.sandboxes@.dom().contains(id) && plane.sandboxes@[id].info.state is Running
}

/// A command that names a program and a time from a millisecond to an hour is handed to the
/// backend of a running sandbox as it came, and what the backend answers is given back.
pub proof fn law_commands_reach_the_backend<B: SandboxBackend>(
    before: ControlPlane<B>,
    id: Seq<char>,
    command: CommandRequest,
    after: ControlPlane<B>,
    ran: Result<CommandResult, RuntimeError>,
)
    requires
        runs(before, id),
        command.command@.len() > 0,
        1 <= command.timeout_ms <= 3_600_000,
        command_outcome(before, id, command, after, ran),
    ensures
        B::step(
            before.sandboxes@[id].backend,
            BackendCall::Run(command),
            after.sandboxes@[id].backend,
            match ran {
                Ok(result) => BackendReply::Command(result),
                Err(error) => BackendReply::Failed(error@),
            },
        ),
{
    let (backend, reply, now) = choose|backend: B, reply: BackendReply, now: u64|
        #[trigger] calls(
            before.sandboxes@,
            id,
            BackendCall::Run(command),
            true,
            backend,
            reply,
            now,
            after.sandboxes@,
        ) && command_answer(reply, ran);
}

/// A command without a program, or with no time or more than an hour of it, is refused
/// wherever it is sent, and nothing changes.
pub proof fn law_bad_commands_are_refused<B: SandboxBackend>(
    before: ControlPlane<B>,
    id: Seq<char>,
    command: CommandRequest,
    after: ControlPlane<B>,
    ran: Result<CommandResult, RuntimeError>,
)
    requires
        command.command@.len() == 0 || command.timeout_ms == 0 || command.timeout_ms > 3_600_000,
        command_outcome(before, id, command, after, ran),
    ensures
        after == before,
        ran matches Err(error) && error@ is Invalid,
{
}

/// A request to kill, write or remove is handed to the backend of a running sandbox as it
/// came, and its failure is given back.
pub proof fn law_changes_reach_the_backend<B: SandboxBackend>(
    before: ControlPlane<B>,
    id: Seq<char>,
    command_id: Seq<char>,
    path: Seq<char>,
    data: Seq<u8>,
    recursive: bool,
    after: ControlPlane<B>,
    done: Result<(), RuntimeError>,
)
    requires
        runs(before, id),
    ensures
        kill_outcome(before, id, command_id, after, done) ==> handed_on(
            before,
            id,
            BackendCall::Kill(command_id),
            after,
            done,
        ),
        write_outcome(before, id, path, data, after, done) && crate::protocol::path_error(
            path,
            true,
        ) is None && data.len() <= 100 * 1024 * 1024 ==> handed_on(
            before,
            id,
            BackendCall::Write(path, data),
            after,
            done,
        ),
        remove_outcome(before, id, path, recursive, after, done) && crate::protocol::path_error(
            path,
            true,
        ) is None ==> handed_on(before, id, BackendCall::Remove(path, recursive), after, done),
{
    if kill_outcome(before, id, command_id, after, done) {
        lemma_handed_on(before, id, BackendCall::Kill(command_id), false, after, done);
    }
    if write_outcome(before, id, path, data, after, done) && crate::protocol::path_error(
        path,
        true,
    ) is None && data.len() <= 100 * 1024 * 1024 {
        lemma_handed_on(before, id, BackendCall::Write(path, data), true, after, done);
    }
    if remove_outcome(before, id, path, recursive, after, done) && crate::protocol::path_error(
        path,
        true,
    ) is None {
        lemma_handed_on(before, id, BackendCall::Remove(path, recursive), false, after, done);
    }
}

/// The backend took the call, and its failure is what the caller is told.
pub open spec fn handed_on<B: SandboxBackend>(
    before: ControlPlane<B>,
    id: Seq<char>,
    call: BackendCall,
    after: ControlPlane<B>,
    done: Result<(), RuntimeError>,
) -> bool {
    B::step(
        before.sandboxes@[id].backend,
        call,
        after.sandboxes@[id].backend,
        match done {
            Ok(_) => BackendReply::Done,
            Err(error) => BackendReply::Failed(error@),
        },
    )
}

proof fn lemma_handed_on<B: SandboxBackend>(
    before: ControlPlane<B>,
    id: Seq<char>,
    call: BackendCall,
    uses: bool,
    after: ControlPlane<B>,
    done: Result<(), RuntimeError>,
)
    requires
        before.sandboxes@.dom().contains(id),
        crate::vm::runtime::unit_outcome(before, id, None, call, uses, after, done),
    ensures
        handed_on(before, id, call, after, done),
{
    let (backend, reply, now) = choose|backend: B, reply: BackendReply, now: u64|
        #[trigger] calls(
            before.sandboxes@,
            id,
            call,
            uses,
            backend,
            reply,
            now,
            after.sandboxes@,
        ) && unit_answer(reply, done);
}

/// A file above 100 MiB is refused, and nothing changes.
pub proof fn law_large_files_are_refused<B: SandboxBackend>(
    before: ControlPlane<B>,
    id: Seq<char>,
    path: Seq<char>,
    data: Seq<u8>,
    after: ControlPlane<B>,
    done: Result<(), RuntimeError>,
)
    requires
        data.len() > 100 * 1024 * 1024,
        write_outcome(before, id, path, data, after, done),
    ensures
        after == before,
        done matches Err(error) && error@ is Invalid,
{
}

/// A change of state marks the sandbox as active and leaves the rest of it alone.
pub proof fn law_moves_mark_activity(info: SandboxInfo, next: SandboxState, now: u64)
    ensures
        ({
            let r = moved(info, next, now);
            &&& r.state == next
            &&& r.last_active_at_ms == now
            &&& r.sandbox_id == info.sandbox_id
            &&& r.session_id == info.session_id
            &&& r.resources == info.resources
            &&& r.created_at_ms == info.created_at_ms
            &&& r.expires_at_ms == info.expires_at_ms
            &&& r.has_secrets == info.has_secrets
            &&& r.knowledge_version == info.knowledge_version
            &&& r.failure_reason == info.failure_reason
        }),
{
}

/// A new sandbox has an identifier of its own, the session that was asked for or a new one,
/// and the version of the knowledge that was asked for.
pub proof fn law_new_sandboxes_are_as_requested<F: SandboxBackendFactory>(
    factory: F,
    before: ControlPlane<F::Backend>,
    request: CreateSandboxRequest,
    after: ControlPlane<F::Backend>,
    made: SandboxInfo,
)
    requires
        create_outcome(factory, before, request, None, after, Ok(made)),
    ensures
        is_id(made.sandbox_id@, "sbx"@),
        request.session_id matches Some(session) ==> made.session_id@ == session@,
        request.session_id is None ==> is_id(made.session_id@, "ses"@),
        made.last_active_at_ms == made.created_at_ms,
        made.failure_reason is None,
        made.knowledge_version is None <==> request.knowledge is None,
        request.knowledge matches Some(k) ==> made.knowledge_version matches Some(v) && v@
            == k.version@,
        forall|other: Seq<char>|
            other != made.sandbox_id@ && #[trigger] before.sandboxes@.dom().contains(other)
                ==> after.sandboxes@.dom().contains(other) && after.sandboxes@[other]
                == before.sandboxes@[other],
{
    let r = Ok::<SandboxInfo, RuntimeError>(made);
    assert forall|draw: Draw, error: RuntimeErrorView| !#[trigger] makes_none(
        factory,
        before,
        request,
        draw,
        error,
        after,
        r,
    ) by {}
    let (draw, backend, reply, record) = choose|
        draw: Draw,
        backend: F::Backend,
        reply: BackendReply,
        record: Record<F::Backend>,
    | #[trigger]
        makes_one(factory, before, request, None, draw, backend, reply, record, after, r);
    let view = made@;
    assert(view.sandbox_id == made.sandbox_id@);
    assert(view.session_id == made.session_id@);
    assert(view.last_active_at_ms == made.last_active_at_ms);
    assert(view.created_at_ms == made.created_at_ms);
    assert(view.knowledge_version == crate::text::opt_text(made.knowledge_version));
    assert(view.failure_reason == crate::text::opt_text(made.failure_reason));
}

/// The sandbox is on record as failed, for the reason given.
pub open spec fn failed_with<B>(
    plane: ControlPlane<B>,
    id: Seq<char>,
    request: CreateSandboxRequest,
    reason: Seq<char>,
) -> bool {
    &&& plane.sandboxes@.dom().contains(id)
    &&& plane.sandboxes@[id].info.state is Failed
    &&& plane.sandboxes@[id].info@.failure_reason == Some(reason)
    &&& plane.sandboxes@[id].request == request
}

/// A sandbox that did not start stays on record as failed, with the reason that the caller
/// is given.
pub proof fn law_failed_starts_are_recorded<F: SandboxBackendFactory>(
    factory: F,
    before: ControlPlane<F::Backend>,
    request: CreateSandboxRequest,
    after: ControlPlane<F::Backend>,
    error: RuntimeError,
)
    requires
        create_outcome(factory, before, request, None, after, Err(error)),
        after != before,
    ensures
        exists|id: Seq<char>| #[trigger] failed_with(after, id, request, error_text(error@)),
{
    let r = Err::<SandboxInfo, RuntimeError>(error);
    assert forall|draw: Draw, e: RuntimeErrorView| !#[trigger] makes_none(
        factory,
        before,
        request,
        draw,
        e,
        after,
        r,
    ) by {}
    let (draw, backend, reply, record) = choose|
        draw: Draw,
        backend: F::Backend,
        reply: BackendReply,
        record: Record<F::Backend>,
    | #[trigger]
        makes_one(factory, before, request, None, draw, backend, reply, record, after, r);
    assert(record.info@.state == record.info.state);
    assert(failed_with(after, draw.sandbox_id, request, error_text(error@)));
}

/// A snapshot names the sandbox that it was made of, has the size that the backend told, is
/// found under its identifier from then on, and is the only thing that is new.
pub proof fn law_snapshots_are_kept<B: SandboxBackend>(
    before: ControlPlane<B>,
    id: Seq<char>,
    after: ControlPlane<B>,
    made: SnapshotInfo,
    asked: Seq<char>,
    found: Result<SnapshotInfo, RuntimeError>,
)
    requires
        snapshot_outcome(before, id, after, Ok(made)),
        finds_snapshot(after.snapshots@, asked, found),
    ensures
        made.source_sandbox_id@ == id,
        made.manifest_version == 1,
        is_id(made.snapshot_id@, "snp"@),
        B::step(
            before.sandboxes@[id].backend,
            BackendCall::Snapshot(made.snapshot_id@),
            after.sandboxes@[id].backend,
            BackendReply::Saved(made.size_bytes),
        ),
        asked == made.snapshot_id@ ==> (found matches Ok(info) && info@ == made@),
        asked != made.snapshot_id@ ==> finds_snapshot(before.snapshots@, asked, found),
        after.sandboxes@[id].info == before.sandboxes@[id].info,
        after.sandboxes@[id].request == before.sandboxes@[id].request,
{
    let r = Ok::<SnapshotInfo, RuntimeError>(made);
    let (snapshot_id, backend, reply, now, kept) = choose|
        snapshot_id: Seq<char>,
        backend: B,
        reply: BackendReply,
        now: u64,
        kept: SnapshotInfo,
    | #[trigger]
        saves(before, id, snapshot_id, backend, reply, now, kept, after, r);
    let view = made@;
    assert(view.snapshot_id == made.snapshot_id@);
    assert(view.source_sandbox_id == made.source_sandbox_id@);
    assert(view.size_bytes == made.size_bytes);
    assert(view.manifest_version == made.manifest_version);
}

/// Running and paused sandboxes are saved, unless they hold secrets; others are not.
pub proof fn law_snapshots_need_a_live_sandbox<B: SandboxBackend>(
    before: ControlPlane<B>,
    id: Seq<char>,
    after: ControlPlane<B>,
    r: Result<SnapshotInfo, RuntimeError>,
)
    requires
        snapshot_outcome(before, id, after, r),
        after != before || r is Ok,
    ensures
        before.sandboxes@.dom().contains(id),
        before.sandboxes@[id].info.state is Running || before.sandboxes@[id].info.state is Paused,
        !before.sandboxes@[id].info.has_secrets,
{
}

/// A deleted snapshot is not found again, cannot be deleted again, and takes no other along.
pub proof fn law_deleted_snapshots_are_gone(
    before: Map<Seq<char>, SnapshotInfo>,
    id: Seq<char>,
    after: Map<Seq<char>, SnapshotInfo>,
    done: Result<(), RuntimeError>,
    asked: Seq<char>,
    found: Result<SnapshotInfo, RuntimeError>,
    last: Map<Seq<char>, SnapshotInfo>,
    again: Result<(), RuntimeError>,
)
    requires
        drops_snapshot(before, id, after, done),
        finds_snapshot(after, asked, found),
        drops_snapshot(after, id, last, again),
    ensures
        done is Ok <==> before.dom().contains(id),
        asked == id ==> (found matches Err(error) && error@ is NotFound),
        asked != id ==> finds_snapshot(before, asked, found),
        again matches Err(error) && error@ is NotFound,
        last == after,
{
    assert(last =~= after);
}

// ---------------------------------------------------------------------------
// Sandboxes in memory
// ---------------------------------------------------------------------------
/// A sandbox in memory answers a command with its words, one blank apart, and is left as it
/// was.
pub proof fn law_commands_are_echoed(
    before: ControlPlane<InMemoryBackend>,
    id: Seq<char>,
    command: CommandRequest,
    after: ControlPlane<InMemoryBackend>,
    ran: Result<CommandResult, RuntimeError>,
)
    requires
        runs(before, id),
        command.command@.len() > 0,
        1 <= command.timeout_ms <= 3_600_000,
        command_outcome(before, id, command, after, ran),
    ensures
        after.sandboxes@[id].backend == before.sandboxes@[id].backend,
        ran matches Ok(result) && result.exit_code == Some(0i32) && !result.timed_out
            && result.stderr@.len() == 0 && result.stdout@ == encode_utf8(
            joined(texts(command.command@), " "@),
        ) && is_id(result.command_id@, "cmd"@),
{
    law_commands_reach_the_backend(before, id, command, after, ran);
}

/// A removed file cannot be read any more; every other file reads as before.
pub proof fn law_removed_files_are_gone(
    before: InMemoryBackend,
    path: Seq<char>,
    recursive: bool,
    between: InMemoryBackend,
    other: Seq<char>,
    max_bytes: u64,
    after: InMemoryBackend,
    reply: BackendReply,
)
    requires
        InMemoryBackend::step(
            before,
            BackendCall::Remove(path, recursive),
            between,
            BackendReply::Done,
        ),
        InMemoryBackend::step(between, BackendCall::Read(other, max_bytes), after, reply),
    ensures
        other == path ==> reply == BackendReply::Failed(RuntimeErrorView::NotFound),
        other != path ==> InMemoryBackend::step(
            before,
            BackendCall::Read(other, max_bytes),
            before,
            reply,
        ),
{
}

/// A sandbox in memory takes every call but a read of what it does not have.
pub proof fn law_memory_takes_every_change(
    before: InMemoryBackend,
    call: BackendCall,
    after: InMemoryBackend,
    reply: BackendReply,
)
    requires
        InMemoryBackend::step(before, call, after, reply),
    ensures
        reply is Failed ==> call is Read,
        call is Start || call is Resume ==> after.running,
        call is Pause || call is Stop || call is Destroy ==> !after.running,
        call is Destroy ==> forall|path: Seq<char>|
            !(#[trigger] contents(after.files@).dom().contains(path)),
{
}

proof fn lemma_below(files: Seq<(String, Vec<u8>)>, path: Seq<char>)
    requires
        distinct_keys(files),
    ensures
        distinct_keys(below(files, path)),
        forall|k: int|
            0 <= k < below(files, path).len() ==> starts_with(
                (#[trigger] below(files, path)[k]).0@,
                path,
            ) && files.contains(below(files, path)[k]),
        forall|i: int|
            0 <= i < files.len() && starts_with((#[trigger] files[i]).0@, path) ==> below(
                files,
                path,
            ).contains(files[i]),
    decreases files.len(),
{
    if files.len() > 0 {
        let front = files.drop_last();
        let all = below(files, path);
        let some = below(front, path);
        assert forall|i: int, j: int| 0 <= i < j < front.len() implies (#[trigger] front[i]).0@ != (
        #[trigger] front[j]).0@ by {
            assert(front[i] == files[i] && front[j] == files[j]);
        }
        lemma_below(front, path);
        let n = files.len() - 1;
        assert forall|k: int| 0 <= k < all.len() implies starts_with((#[trigger] all[k]).0@, path)
            && files.contains(all[k]) by {
            if k < some.len() {
                assert(all[k] == some[k]);
                let i = choose|i: int| 0 <= i < front.len() && front[i] == some[k];
                assert(files[i] == all[k]);
            } else {
                assert(files[n] == all[k]);
            }
        }
        assert forall|i: int| 0 <= i < files.len() && starts_with(
            (#[trigger] files[i]).0@,
            path,
        ) implies all.contains(files[i]) by {
            if i < n {
                assert(front[i] == files[i]);
                let k = choose|k: int| 0 <= k < some.len() && some[k] == files[i];
                assert(all[k] == files[i]);
            } else {
                assert(all[some.len() as int] == files[i]);
            }
        }
        assert forall|i: int, j: int| 0 <= i < j < all.len() implies (#[trigger] all[i]).0@ != (
        #[trigger] all[j]).0@ by {
            assert(all[i] == some[i]);
            if j < some.len() {
                assert(all[j] == some[j]);
            } else {
                let a = choose|a: int| 0 <= a < front.len() && front[a] == some[i];
                assert(front[a] == files[a]);
                assert(files[n] == all[j]);
            }
        }
    }
}

/// One of the entries is for the path.
pub open spec fn has_entry(entries: Seq<FileEntry>, path: Seq<char>) -> bool {
    exists|i: int| 0 <= i < entries.len() && (#[trigger] entries[i]).path@ == path
}

/// A listing shows exactly the files below a path, each once and with its size.
pub proof fn law_listings_show_the_files(
    plane: ControlPlane<InMemoryBackend>,
    id: Seq<char>,
    path: Seq<char>,
    r: Result<Vec<FileEntry>, RuntimeError>,
)
    requires
        runs(plane, id),
        crate::protocol::path_error(path, false) is None,
        list_outcome(plane, id, path, r),
        ({
            let files = plane.sandboxes@[id].backend.files;
            distinct_keys(files.order()) && files@ == entries_map(files.order())
        }),
    ensures
        r is Ok,
        ({
            let files = contents(plane.sandboxes@[id].backend.files@);
            let entries = r->Ok_0@;
            &&& forall|p: Seq<char>| #[trigger]
                has_entry(entries, p) <==> files.dom().contains(p) && starts_with(p, path)
            &&& forall|i: int|
                0 <= i < entries.len() ==> (#[trigger] entries[i]).kind@ == "file"@
                    && entries[i].size == files[entries[i].path@].len()
            &&& forall|i: int, j: int|
                0 <= i < j < entries.len() ==> (#[trigger] entries[i]).path@ != (
                #[trigger] entries[j]).path@
        }),
{
    let table = plane.sandboxes@[id].backend.files;
    let order = table.order();
    let files = contents(table@);
    let shown = below(order, path);
    assert(entries_reply(r) is Entries);
    let entries = r->Ok_0@;
    lemma_below(order, path);
    crate::table::lemma_entries_map(order);
    assert forall|i: int| 0 <= i < entries.len() implies (#[trigger] entries[i]).kind@ == "file"@
        && entries[i].size == files[entries[i].path@].len() && entries[i].path@ == shown[i].0@
        && files.dom().contains(entries[i].path@) && starts_with(entries[i].path@, path) by {
        assert(crate::vm::memory::lists(entries[i], shown[i]));
        let k = choose|k: int| 0 <= k < order.len() && order[k] == shown[i];
        assert(entries_map(order)[order[k].0@] == order[k].1);
    }
    assert forall|i: int, j: int| 0 <= i < j < entries.len() implies (#[trigger] entries[i]).path@
        != (#[trigger] entries[j]).path@ by {
        assert(shown[i].0@ != shown[j].0@);
    }
    assert forall|p: Seq<char>| #[trigger]
        has_entry(entries, p) <==> files.dom().contains(p) && starts_with(p, path) by {
        if files.dom().contains(p) && starts_with(p, path) {
            let k = choose|k: int| 0 <= k < order.len() && (#[trigger] order[k]).0@ == p;
            assert(shown.contains(order[k]));
            let i = choose|i: int| 0 <= i < shown.len() && shown[i] == order[k];
            assert(entries[i].path@ == p);
        }
    }
}

/// A snapshot of a sandbox in memory is as large as its files together, as far as that can
/// be counted.
pub proof fn law_snapshot_sizes_add_up(files: Seq<(String, Vec<u8>)>, file: (String, Vec<u8>))
    ensures
        total_size(Seq::empty()) == 0,
        total_size(files.push(file)) == total_size(files) + file.1@.len(),
{
    assert(files.push(file).drop_last() =~= files);
}

} // verus!
