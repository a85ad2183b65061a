//! The records of all sandboxes and snapshots, and the rules for changing them.
//!
//! An operation that a backend carries out has two parts: what is tested before
//! the backend is called, and what is recorded once it has answered.

use crate::protocol::{path_error, validate_guest_path};
use crate::table::{distinct_keys, text_map, Table};
use crate::text::{blank, chars_of, is_blank};
use crate::types::{
    deadline, expiry, limits_error, state_name, CommandRequest, CreateSandboxRequest, IdleAction,
    InfoView, SandboxInfo, SandboxState, SnapshotInfo, SnapshotView,
};
use crate::vm::error::{error_text, RuntimeError, RuntimeErrorView};
use vstd::prelude::*;

verus! {

pub const MAX_TIMEOUT_SECONDS: u64 = 86400;

pub const MAX_COMMAND_TIMEOUT_MS: u64 = 3600000;

/// Bytes of a file that are read or written at most.
pub const MAX_FILE_BYTES: u64 = 104857600;

pub const SNAPSHOT_MANIFEST_VERSION: u32 = 1;

/// One sandbox: what is known of it, what was asked for, and its backend.
#[derive(Debug)]
pub struct Record<B> {
    pub info: SandboxInfo,
    pub request: CreateSandboxRequest,
    pub backend: B,
}

/// A change of state that a backend carries out.
#[derive(Clone, Copy, Debug, PartialEq, Eq, Structural)]
pub enum Lifecycle {
    Start,
    Pause,
    Resume,
    Stop,
}

/// The state in which a change ends.
pub open spec fn target(op: Lifecycle) -> SandboxState {
    match op {
        Lifecycle::Start => SandboxState::Running,
        Lifecycle::Pause => SandboxState::Paused,
        Lifecycle::Resume => SandboxState::Running,
        Lifecycle::Stop => SandboxState::Stopped,
    }
}

/// Whether a change may begin in a state.
pub open spec fn begins_in(op: Lifecycle, state: SandboxState) -> bool {
    match op {
        Lifecycle::Start => state is Stopped,
        Lifecycle::Pause => state is Running,
        Lifecycle::Resume => state is Paused,
        Lifecycle::Stop => state is Running || state is Paused,
    }
}

/// An operation that the sandbox's state does not allow.
pub open spec fn conflict(state: SandboxState) -> RuntimeErrorView {
    RuntimeErrorView::Conflict("operation is not allowed while sandbox is "@ + state_name(state))
}

/// What is to be done about a change of state.
pub enum Verdict {
    Refused(RuntimeErrorView),
    /// The sandbox is in the state already.
    Already,
    Proceed,
}

pub open spec fn lifecycle_verdict<B>(
    sandboxes: Map<Seq<char>, Record<B>>,
    id: Seq<char>,
    op: Lifecycle,
) -> Verdict {
    if !sandboxes.dom().contains(id) {
        Verdict::Refused(RuntimeErrorView::NotFound)
    } else {
        let info = sandboxes[id].info;
        if op is Pause && info.has_secrets {
            Verdict::Refused(RuntimeErrorView::SecretsCannotBeSnapshotted)
        } else if !(op is Pause) && info.state == target(op) {
            Verdict::Already
        } else if begins_in(op, info.state) {
            Verdict::Proceed
        } else {
            Verdict::Refused(conflict(info.state))
        }
    }
}

/// Why a running sandbox is not at hand, if it is not.
pub open spec fn running_error<B>(
    sandboxes: Map<Seq<char>, Record<B>>,
    id: Seq<char>,
) -> Option<RuntimeErrorView> {
    if !sandboxes.dom().contains(id) {
        Some(RuntimeErrorView::NotFound)
    } else if !(sandboxes[id].info.state is Running) {
        Some(conflict(sandboxes[id].info.state))
    } else {
        None
    }
}

/// Why a command is not run, if it is not.
pub open spec fn command_refusal<B>(
    sandboxes: Map<Seq<char>, Record<B>>,
    id: Seq<char>,
    request: CommandRequest,
) -> Option<RuntimeErrorView> {
    if request.command@.len() == 0 {
        Some(RuntimeErrorView::Invalid("command cannot be empty"@))
    } else if request.timeout_ms == 0 || request.timeout_ms > MAX_COMMAND_TIMEOUT_MS {
        Some(RuntimeErrorView::Invalid("timeoutMs must be 1..=3600000"@))
    } else {
        running_error(sandboxes, id)
    }
}

/// Why a file operation is not carried out, if it is not.
pub open spec fn file_refusal<B>(
    sandboxes: Map<Seq<char>, Record<B>>,
    id: Seq<char>,
    path: Seq<char>,
    writable: bool,
    size: nat,
) -> Option<RuntimeErrorView> {
    match path_error(path, writable) {
        Some(text) => Some(RuntimeErrorView::Invalid(text)),
        None => if size > MAX_FILE_BYTES {
            Some(RuntimeErrorView::Invalid("file exceeds 100 MiB"@))
        } else {
            running_error(sandboxes, id)
        },
    }
}

/// Why a snapshot is not taken, if it is not.
pub open spec fn snapshot_refusal<B>(
    sandboxes: Map<Seq<char>, Record<B>>,
    id: Seq<char>,
) -> Option<RuntimeErrorView> {
    if !sandboxes.dom().contains(id) {
        Some(RuntimeErrorView::NotFound)
    } else {
        let info = sandboxes[id].info;
        if info.has_secrets {
            Some(RuntimeErrorView::SecretsCannotBeSnapshotted)
        } else if info.state is Running || info.state is Paused {
            None
        } else {
            Some(conflict(info.state))
        }
    }
}

/// Why a request for a sandbox is turned down, if it is.
pub open spec fn create_refusal(request: CreateSandboxRequest) -> Option<RuntimeErrorView> {
    match limits_error(request.resources) {
        Some(text) => Some(RuntimeErrorView::Invalid(text)),
        None => if request.timeout_seconds == 0 || request.timeout_seconds > MAX_TIMEOUT_SECONDS {
            Some(RuntimeErrorView::Invalid("timeoutSeconds must be 1..=86400"@))
        } else {
            None
        },
    }
}

/// The key of a request that may be repeated; a blank key is none.
pub open spec fn usable_key(key: Option<&str>) -> Option<Seq<char>> {
    match key {
        Some(k) => if is_blank(k@) {
            None
        } else {
            Some(k@)
        },
        None => None,
    }
}

/// What is recorded of a sandbox when it is asked for.
pub open spec fn new_info(
    sandbox_id: Seq<char>,
    session_id: Seq<char>,
    request: CreateSandboxRequest,
    now: u64,
) -> InfoView {
    InfoView {
        sandbox_id,
        session_id,
        state: SandboxState::Creating,
        resources: request.resources,
        created_at_ms: now,
        last_active_at_ms: now,
        expires_at_ms: deadline(now, request.timeout_seconds),
        has_secrets: request.secrets@.dom().len() > 0,
        knowledge_version: match request.knowledge {
            Some(k) => Some(k.version@),
            None => None,
        },
        failure_reason: None,
    }
}

/// What is recorded once its backend was started, or was not.
pub open spec fn started_info(info: InfoView, started: Result<(), RuntimeErrorView>) -> InfoView {
    match started {
        Ok(_) => InfoView { state: SandboxState::Running, ..info },
        Err(e) => InfoView {
            state: SandboxState::Failed,
            failure_reason: Some(error_text(e)),
            ..info
        },
    }
}

/// The sandbox in another state.
pub open spec fn moved(info: SandboxInfo, next: SandboxState, now: u64) -> SandboxInfo {
    SandboxInfo { state: next, last_active_at_ms: now, ..info }
}

/// The sandbox after it was used.
pub open spec fn used(info: SandboxInfo, timeout_seconds: u64, now: u64) -> SandboxInfo {
    SandboxInfo {
        last_active_at_ms: now,
        expires_at_ms: deadline(now, timeout_seconds),
        ..info
    }
}

/// What happens to a sandbox that has been left alone for too long.
#[derive(Clone, Copy, Debug, PartialEq, Eq, Structural)]
pub enum Fate {
    Stays,
    Paused,
    Destroyed,
}

pub open spec fn fate<B>(record: Record<B>, now: u64) -> Fate {
    if !(record.info.state is Running) || record.info.expires_at_ms > now {
        Fate::Stays
    } else if record.request.idle_action is Pause && !record.info.has_secrets {
        Fate::Paused
    } else {
        Fate::Destroyed
    }
}

/// Every sandbox is recorded under its own identifier.
pub open spec fn keyed<B>(sandboxes: Map<Seq<char>, Record<B>>) -> bool {
    forall|id: Seq<char>| #[trigger]
        sandboxes.dom().contains(id) ==> sandboxes[id].info.sandbox_id@ == id
}

/// Every key leads to a sandbox that is recorded.
pub open spec fn keys_lead<B>(
    keys: Map<Seq<char>, Seq<char>>,
    sandboxes: Map<Seq<char>, Record<B>>,
) -> bool {
    forall|k: Seq<char>| #[trigger] keys.dom().contains(k) ==> sandboxes.dom().contains(keys[k])
}

/// All sandboxes, each once, the oldest first.
pub open spec fn lists_all<B>(sandboxes: Map<Seq<char>, Record<B>>, all: Seq<SandboxInfo>) -> bool {
    &&& faithful(sandboxes, all)
    &&& forall|id: Seq<char>| #[trigger] sandboxes.dom().contains(id) ==> listed(all, id)
    &&& distinct_ids(all)
    &&& by_age(all)
}

/// The keys once a sandbox was created under one.
pub open spec fn remember(
    keys: Map<Seq<char>, Seq<char>>,
    key: Option<Seq<char>>,
    id: Seq<char>,
) -> Map<Seq<char>, Seq<char>> {
    match key {
        None => keys,
        Some(k) => keys.insert(k, id),
    }
}

/// The keys by which a sandbox is not found.
pub open spec fn forget(keys: Map<Seq<char>, Seq<char>>, id: Seq<char>) -> Map<
    Seq<char>,
    Seq<char>,
> {
    Map::new(|k: Seq<char>| keys.dom().contains(k) && keys[k] != id, |k: Seq<char>| keys[k])
}

/// A sandbox is recorded with its backend, as far as that was started.
pub open spec fn creates<B>(
    before: Map<Seq<char>, Record<B>>,
    info: InfoView,
    request: CreateSandboxRequest,
    backend: B,
    started: Result<(), RuntimeErrorView>,
    record: Record<B>,
    after: Map<Seq<char>, Record<B>>,
) -> bool {
    &&& record.info@ == started_info(info, started)
    &&& record.request == request
    &&& record.backend == backend
    &&& after == before.insert(info.sandbox_id, record)
}

pub open spec fn start_view(started: Result<(), RuntimeError>) -> Result<(), RuntimeErrorView> {
    match started {
        Ok(_) => Ok(()),
        Err(e) => Err(e@),
    }
}

// ---------------------------------------------------------------------------
// Records
// ---------------------------------------------------------------------------
fn conflict_error(state: SandboxState) -> (r: RuntimeError)
    ensures
        r@ == conflict(state),
{
    let mut text: String = "operation is not allowed while sandbox is ".to_owned();
    text.push_str(state.name());
    RuntimeError::Conflict(text)
}

/// The sandbox in another state.
pub fn move_to(info: SandboxInfo, next: SandboxState, now: u64) -> (r: SandboxInfo)
    ensures
        r == moved(info, next, now),
{
    SandboxInfo { state: next, last_active_at_ms: now, ..info }
}

/// The sandbox after it was used.
pub fn touch(info: SandboxInfo, timeout_seconds: u64, now: u64) -> (r: SandboxInfo)
    ensures
        r == used(info, timeout_seconds, now),
{
    SandboxInfo {
        last_active_at_ms: now,
        expires_at_ms: expiry(now, timeout_seconds),
        ..info
    }
}

/// What is recorded of a sandbox when it is asked for.
pub fn describe(
    sandbox_id: String,
    session_id: String,
    request: &CreateSandboxRequest,
    now: u64,
) -> (r: SandboxInfo)
    ensures
        r@ == new_info(sandbox_id@, session_id@, *request, now),
{
    let has_secrets = request.secrets.len() > 0;
    let knowledge_version = match &request.knowledge {
        Some(k) => Some(k.version.clone()),
        None => None,
    };
    SandboxInfo {
        sandbox_id,
        session_id,
        state: SandboxState::Creating,
        resources: request.resources,
        created_at_ms: now,
        last_active_at_ms: now,
        expires_at_ms: expiry(now, request.timeout_seconds),
        has_secrets,
        knowledge_version,
        failure_reason: None,
    }
}

/// What is recorded once the backend was started, or was not.
pub fn settle(info: SandboxInfo, started: &Result<(), RuntimeError>) -> (r: SandboxInfo)
    ensures
        r@ == started_info(info@, start_view(*started)),
{
    match started {
        Ok(_) => SandboxInfo { state: SandboxState::Running, ..info },
        Err(e) => SandboxInfo {
            state: SandboxState::Failed,
            failure_reason: Some(e.message()),
            ..info
        },
    }
}

/// Refuses a request that no backend is asked to meet.
pub fn check_request(request: &CreateSandboxRequest) -> (r: Result<(), RuntimeError>)
    ensures
        match create_refusal(*request) {
            None => r is Ok,
            Some(e) => r matches Err(x) && x@ == e,
        },
{
    match request.resources.validate() {
        Err(e) => Err(RuntimeError::Invalid(e.message())),
        Ok(_) => {
            if request.timeout_seconds == 0 || request.timeout_seconds > MAX_TIMEOUT_SECONDS {
                Err(RuntimeError::Invalid("timeoutSeconds must be 1..=86400".to_owned()))
            } else {
                Ok(())
            }
        },
    }
}

/// The key of a request that may be repeated.
pub fn key_of<'a>(key: Option<&'a str>) -> (r: Option<&'a str>)
    ensures
        match r {
            Some(k) => usable_key(key) == Some(k@) && key == Some(k),
            None => usable_key(key) is None,
        },
{
    match key {
        Some(k) => {
            let chars = chars_of(k);
            if blank(chars.as_slice()) {
                None
            } else {
                Some(k)
            }
        },
        None => None,
    }
}

/// What happens to a sandbox that has been left alone for too long.
pub fn idle_fate<B>(record: &Record<B>, now: u64) -> (r: Fate)
    ensures
        r == fate(*record, now),
{
    if record.info.state != SandboxState::Running || record.info.expires_at_ms > now {
        Fate::Stays
    } else if record.request.idle_action == IdleAction::Pause && !record.info.has_secrets {
        Fate::Paused
    } else {
        Fate::Destroyed
    }
}

// ---------------------------------------------------------------------------
// The control plane
// ---------------------------------------------------------------------------
#[derive(Debug)]
pub struct ControlPlane<B> {
    pub sandboxes: Table<Record<B>>,
    pub snapshots: Table<SnapshotInfo>,
    /// The sandboxes that were created under a key.
    pub idempotency: Table<String>,
}

impl<B> ControlPlane<B> {
    pub fn new() -> (r: Self)
        ensures
            r.sandboxes@ == Map::<Seq<char>, Record<B>>::empty(),
            r.snapshots@ == Map::<Seq<char>, SnapshotInfo>::empty(),
            r.idempotency@ == Map::<Seq<char>, String>::empty(),
    {
        ControlPlane {
            sandboxes: Table::new(),
            snapshots: Table::new(),
            idempotency: Table::new(),
        }
    }

    pub fn get(&self, id: &str) -> (r: Result<SandboxInfo, RuntimeError>)
        ensures
            finds(self.sandboxes@, id@, r),
    {
        match self.sandboxes.get(id) {
            Some(record) => Ok(record.info.duplicate()),
            None => Err(RuntimeError::NotFound),
        }
    }

    /// The sandboxes that were created under a key, by their keys.
    pub open spec fn keys(self) -> Map<Seq<char>, Seq<char>> {
        text_map(self.idempotency@)
    }

    /// Every sandbox is recorded under its own identifier, and every key leads to one.
    pub open spec fn sound(self) -> bool {
        keyed(self.sandboxes@) && keys_lead(self.keys(), self.sandboxes@)
    }

    /// The sandbox that was created under a key, if the key was used.
    pub fn created_under(&self, key: Option<&str>) -> (r: Option<Result<SandboxInfo, RuntimeError>>)
        ensures
            match usable_key(key) {
                None => r is None,
                Some(k) => if !self.keys().dom().contains(k) {
                    r is None
                } else {
                    r matches Some(found) && finds(self.sandboxes@, self.keys()[k], found)
                },
            },
    {
        match key_of(key) {
            None => None,
            Some(k) => match self.idempotency.get(k) {
                None => None,
                Some(id) => Some(self.get(id.as_str())),
            },
        }
    }

    /// Records a sandbox whose backend was made; one that was started is found by
    /// its key from then on.
    pub fn finish_create(
        &mut self,
        info: SandboxInfo,
        request: CreateSandboxRequest,
        backend: B,
        started: Result<(), RuntimeError>,
        key: Option<&str>,
    ) -> (r: Result<SandboxInfo, RuntimeError>)
        ensures
            final(self).snapshots == old(self).snapshots,
            exists|record: Record<B>| #[trigger]
                creates(
                    old(self).sandboxes@,
                    info@,
                    request,
                    backend,
                    start_view(started),
                    record,
                    final(self).sandboxes@,
                ),
            match started {
                Ok(_) => r matches Ok(i) && i@ == started_info(info@, Ok(())) && final(self).keys()
                    == remember(old(self).keys(), usable_key(key), info.sandbox_id@),
                Err(e) => r == Err::<SandboxInfo, RuntimeError>(e) && final(self).keys() == old(
                    self,
                ).keys(),
            },
    {
        let id = info.sandbox_id.clone();
        let ghost asked = info@;
        let ghost sandboxes = self.sandboxes@;
        let info = settle(info, &started);
        let answer = info.duplicate();
        let record = Record { info, request, backend };
        self.sandboxes.insert(id.clone(), record);
        assert(creates(
            sandboxes,
            asked,
            request,
            backend,
            start_view(started),
            record,
            self.sandboxes@,
        ));
        let ghost recorded = self.sandboxes@;
        let r = match started {
            Ok(_) => {
                if let Some(k) = key_of(key) {
                    self.idempotency.insert(k.to_owned(), id);
                }
                assert(self.keys() =~= remember(old(self).keys(), usable_key(key), id@));
                Ok(answer)
            },
            Err(e) => Err(e),
        };
        assert(self.sandboxes@ == recorded);
        r
    }

    /// All sandboxes, the oldest first.
    pub fn list(&self) -> (r: Vec<SandboxInfo>)
        requires
            keyed(self.sandboxes@),
        ensures
            lists_all(self.sandboxes@, r@),
    {
        let n = self.sandboxes.len();
        let ghost order = self.sandboxes.order();
        let mut all: Vec<SandboxInfo> = Vec::new();
        for i in 0..n
            invariant
                n == order.len(),
                order == self.sandboxes.order(),
                keyed(self.sandboxes@),
                distinct_keys(order),
                forall|j: int|
                    0 <= j < n ==> self.sandboxes@.dom().contains((#[trigger] order[j]).0@)
                        && self.sandboxes@[order[j].0@] == order[j].1,
                faithful(self.sandboxes@, all@),
                all_recorded(order.take(i as int), all@),
                all_listed(order.take(i as int), all@),
                distinct_ids(all@),
                by_age(all@),
        {
            let (id, record) = self.sandboxes.at(i);
            let info = record.info.duplicate();
            let mut place: usize = all.len();
            while place > 0 && all[place - 1].created_at_ms > info.created_at_ms
                invariant
                    place <= all@.len(),
                    forall|j: int|
                        place <= j < all@.len() ==> (#[trigger] all@[j]).created_at_ms
                            > info.created_at_ms,
                decreases place,
            {
                place = place - 1;
            }
            let ghost before = all@;
            all.insert(place, info);
            proof {
                assert(info.sandbox_id@ == info@.sandbox_id);
                lemma_is_new(order, i as int, before);
                lemma_insert_recorded(order, i as int, before, place as int, info);
                lemma_insert_listed(order, i as int, before, place as int, info);
                lemma_insert_sorted(self.sandboxes@, before, place as int, info);
            }
        }
        assert(order.take(n as int) =~= order);
        all
    }

    /// Whether a change of state is refused, needless, or up to the backend.
    pub fn begin_lifecycle(&self, id: &str, op: Lifecycle) -> (r: Result<
        Option<SandboxInfo>,
        RuntimeError,
    >)
        ensures
            match lifecycle_verdict(self.sandboxes@, id@, op) {
                Verdict::Refused(e) => r matches Err(x) && x@ == e,
                Verdict::Already => r matches Ok(Some(info)) && info@
                    == self.sandboxes@[id@].info@,
                Verdict::Proceed => r == Ok::<Option<SandboxInfo>, RuntimeError>(None),
            },
    {
        match self.sandboxes.get(id) {
            None => Err(RuntimeError::NotFound),
            Some(record) => {
                let state = record.info.state;
                let allowed = match op {
                    Lifecycle::Start => {
                        if state == SandboxState::Running {
                            return Ok(Some(record.info.duplicate()));
                        }
                        state == SandboxState::Stopped
                    },
                    Lifecycle::Pause => {
                        if record.info.has_secrets {
                            return Err(RuntimeError::SecretsCannotBeSnapshotted);
                        }
                        state == SandboxState::Running
                    },
                    Lifecycle::Resume => {
                        if state == SandboxState::Running {
                            return Ok(Some(record.info.duplicate()));
                        }
                        state == SandboxState::Paused
                    },
                    Lifecycle::Stop => {
                        if state == SandboxState::Stopped {
                            return Ok(Some(record.info.duplicate()));
                        }
                        state == SandboxState::Running || state == SandboxState::Paused
                    },
                };
                if allowed {
                    Ok(None)
                } else {
                    Err(conflict_error(state))
                }
            },
        }
    }

    /// Records a change of state that the backend carried out.
    pub fn finish_lifecycle(&mut self, id: &str, op: Lifecycle, now: u64) -> (r: Result<
        SandboxInfo,
        RuntimeError,
    >)
        ensures
            final(self).snapshots == old(self).snapshots,
            final(self).idempotency == old(self).idempotency,
            if old(self).sandboxes@.dom().contains(id@) {
                let record = old(self).sandboxes@[id@];
                let info = moved(record.info, target(op), now);
                &&& final(self).sandboxes@ == old(self).sandboxes@.insert(
                    id@,
                    (Record { info, ..record }),
                )
                &&& r matches Ok(i) && i@ == info@
            } else {
                &&& final(self).sandboxes@ == old(self).sandboxes@
                &&& r matches Err(e) && e@ == RuntimeErrorView::NotFound
            },
    {
        let next = match op {
            Lifecycle::Start => SandboxState::Running,
            Lifecycle::Pause => SandboxState::Paused,
            Lifecycle::Resume => SandboxState::Running,
            Lifecycle::Stop => SandboxState::Stopped,
        };
        match self.sandboxes.remove(id) {
            None => {
                assert(self.sandboxes@ =~= old(self).sandboxes@);
                Err(RuntimeError::NotFound)
            },
            Some(record) => {
                let info = move_to(record.info, next, now);
                let answer = info.duplicate();
                self.sandboxes.insert(
                    id.to_owned(),
                    Record { info, request: record.request, backend: record.backend },
                );
                assert(self.sandboxes@ =~= old(self).sandboxes@.insert(
                    id@,
                    (Record { info, ..record }),
                ));
                Ok(answer)
            },
        }
    }

    /// Whether the backend has to destroy the sandbox first.
    pub fn begin_destroy(&self, id: &str) -> (r: Result<bool, RuntimeError>)
        ensures
            match r {
                Ok(b) => self.sandboxes@.dom().contains(id@) && b == !(
                self.sandboxes@[id@].info.state is Destroyed),
                Err(e) => !self.sandboxes@.dom().contains(id@) && e@ == RuntimeErrorView::NotFound,
            },
    {
        match self.sandboxes.get(id) {
            None => Err(RuntimeError::NotFound),
            Some(record) => Ok(record.info.state != SandboxState::Destroyed),
        }
    }

    /// Strikes a destroyed sandbox off the records; its backend comes back.
    pub fn finish_destroy(&mut self, id: &str) -> (r: Option<B>)
        ensures
            final(self).sandboxes@ == old(self).sandboxes@.remove(id@),
            final(self).keys() == forget(old(self).keys(), id@),
            final(self).snapshots == old(self).snapshots,
            r == if old(self).sandboxes@.dom().contains(id@) {
                Some(old(self).sandboxes@[id@].backend)
            } else {
                None
            },
    {
        let removed = self.sandboxes.remove(id);
        self.idempotency.drop_value(id);
        assert(self.keys() =~= forget(old(self).keys(), id@));
        match removed {
            Some(record) => Some(record.backend),
            None => None,
        }
    }

    fn check_running(&self, id: &str) -> (r: Result<(), RuntimeError>)
        ensures
            match running_error(self.sandboxes@, id@) {
                None => r is Ok,
                Some(e) => r matches Err(x) && x@ == e,
            },
    {
        match self.sandboxes.get(id) {
            None => Err(RuntimeError::NotFound),
            Some(record) => {
                if record.info.state == SandboxState::Running {
                    Ok(())
                } else {
                    Err(conflict_error(record.info.state))
                }
            },
        }
    }

    pub fn begin_command(&self, id: &str, request: &CommandRequest) -> (r: Result<(), RuntimeError>)
        ensures
            match command_refusal(self.sandboxes@, id@, *request) {
                None => r is Ok,
                Some(e) => r matches Err(x) && x@ == e,
            },
    {
        if request.command.len() == 0 {
            return Err(RuntimeError::Invalid("command cannot be empty".to_owned()));
        }
        if request.timeout_ms == 0 || request.timeout_ms > MAX_COMMAND_TIMEOUT_MS {
            return Err(RuntimeError::Invalid("timeoutMs must be 1..=3600000".to_owned()));
        }
        self.check_running(id)
    }

    pub fn begin_kill(&self, id: &str) -> (r: Result<(), RuntimeError>)
        ensures
            match running_error(self.sandboxes@, id@) {
                None => r is Ok,
                Some(e) => r matches Err(x) && x@ == e,
            },
    {
        self.check_running(id)
    }

    /// Whether a file may be touched; `size` is what is to be written.
    pub fn begin_file(&self, id: &str, path: &str, writable: bool, size: usize) -> (r: Result<
        (),
        RuntimeError,
    >)
        ensures
            match file_refusal(self.sandboxes@, id@, path@, writable, size as nat) {
                None => r is Ok,
                Some(e) => r matches Err(x) && x@ == e,
            },
    {
        if let Err(message) = validate_guest_path(path, writable) {
            return Err(RuntimeError::Invalid(message.to_owned()));
        }
        if size as u64 > MAX_FILE_BYTES {
            return Err(RuntimeError::Invalid("file exceeds 100 MiB".to_owned()));
        }
        self.check_running(id)
    }

    /// Records that the sandbox was used.
    pub fn finish_use(&mut self, id: &str, now: u64)
        ensures
            final(self).snapshots == old(self).snapshots,
            final(self).idempotency == old(self).idempotency,
            final(self).sandboxes@ == touched(old(self).sandboxes@, id@, now),
    {
        match self.sandboxes.remove(id) {
            None => {
                assert(self.sandboxes@ =~= old(self).sandboxes@);
            },
            Some(record) => {
                let info = touch(record.info, record.request.timeout_seconds, now);
                self.sandboxes.insert(
                    id.to_owned(),
                    Record { info, request: record.request, backend: record.backend },
                );
                assert(self.sandboxes@ =~= touched(old(self).sandboxes@, id@, now));
            },
        }
    }

    pub fn begin_snapshot(&self, id: &str) -> (r: Result<(), RuntimeError>)
        ensures
            match snapshot_refusal(self.sandboxes@, id@) {
                None => r is Ok,
                Some(e) => r matches Err(x) && x@ == e,
            },
    {
        match self.sandboxes.get(id) {
            None => Err(RuntimeError::NotFound),
            Some(record) => {
                if record.info.has_secrets {
                    return Err(RuntimeError::SecretsCannotBeSnapshotted);
                }
                let state = record.info.state;
                if state == SandboxState::Running || state == SandboxState::Paused {
                    Ok(())
                } else {
                    Err(conflict_error(state))
                }
            },
        }
    }

    /// Records a snapshot that the backend took.
    pub fn finish_snapshot(&mut self, id: &str, snapshot_id: String, size_bytes: u64, now: u64) -> (r:
        SnapshotInfo)
        ensures
            r@ == new_snapshot(snapshot_id@, id@, size_bytes, now),
            exists|kept: SnapshotInfo|
                kept@ == r@ && final(self).snapshots@ == #[trigger] old(self).snapshots@.insert(
                    snapshot_id@,
                    kept,
                ),
            final(self).sandboxes == old(self).sandboxes,
            final(self).idempotency == old(self).idempotency,
    {
        let info = SnapshotInfo {
            snapshot_id: snapshot_id.clone(),
            source_sandbox_id: id.to_owned(),
            created_at_ms: now,
            size_bytes,
            manifest_version: SNAPSHOT_MANIFEST_VERSION,
        };
        let answer = info.duplicate();
        self.snapshots.insert(snapshot_id, info);
        answer
    }

    pub fn get_snapshot(&self, snapshot_id: &str) -> (r: Result<SnapshotInfo, RuntimeError>)
        ensures
            finds_snapshot(self.snapshots@, snapshot_id@, r),
    {
        match self.snapshots.get(snapshot_id) {
            Some(info) => Ok(info.duplicate()),
            None => Err(RuntimeError::NotFound),
        }
    }

    pub fn delete_snapshot(&mut self, snapshot_id: &str) -> (r: Result<(), RuntimeError>)
        ensures
            drops_snapshot(old(self).snapshots@, snapshot_id@, final(self).snapshots@, r),
            final(self).sandboxes == old(self).sandboxes,
            final(self).idempotency == old(self).idempotency,
    {
        match self.snapshots.remove(snapshot_id) {
            Some(_) => Ok(()),
            None => Err(RuntimeError::NotFound),
        }
    }
}

/// The snapshot is looked up by its identifier.
pub open spec fn finds_snapshot(
    snapshots: Map<Seq<char>, SnapshotInfo>,
    snapshot_id: Seq<char>,
    r: Result<SnapshotInfo, RuntimeError>,
) -> bool {
    match r {
        Ok(info) => snapshots.dom().contains(snapshot_id) && info@ == snapshots[snapshot_id]@,
        Err(e) => !snapshots.dom().contains(snapshot_id) && e@ == RuntimeErrorView::NotFound,
    }
}

/// The snapshot goes, if it is there, and no other does.
pub open spec fn drops_snapshot(
    before: Map<Seq<char>, SnapshotInfo>,
    snapshot_id: Seq<char>,
    after: Map<Seq<char>, SnapshotInfo>,
    r: Result<(), RuntimeError>,
) -> bool {
    &&& after == before.remove(snapshot_id)
    &&& match r {
        Ok(_) => before.dom().contains(snapshot_id),
        Err(e) => !before.dom().contains(snapshot_id) && e@ == RuntimeErrorView::NotFound,
    }
}

/// The sandbox is looked up by its identifier.
pub open spec fn finds<B>(
    sandboxes: Map<Seq<char>, Record<B>>,
    id: Seq<char>,
    r: Result<SandboxInfo, RuntimeError>,
) -> bool {
    match r {
        Ok(info) => sandboxes.dom().contains(id) && info@ == sandboxes[id].info@,
        Err(e) => !sandboxes.dom().contains(id) && e@ == RuntimeErrorView::NotFound,
    }
}

/// The sandboxes after one of them was used.
pub open spec fn touched<B>(
    sandboxes: Map<Seq<char>, Record<B>>,
    id: Seq<char>,
    now: u64,
) -> Map<Seq<char>, Record<B>> {
    if sandboxes.dom().contains(id) {
        let record = sandboxes[id];
        sandboxes.insert(
            id,
            Record { info: used(record.info, record.request.timeout_seconds, now), ..record },
        )
    } else {
        sandboxes
    }
}

pub open spec fn new_snapshot(
    snapshot_id: Seq<char>,
    sandbox_id: Seq<char>,
    size_bytes: u64,
    now: u64,
) -> SnapshotView {
    SnapshotView {
        snapshot_id,
        source_sandbox_id: sandbox_id,
        created_at_ms: now,
        size_bytes,
        manifest_version: SNAPSHOT_MANIFEST_VERSION,
    }
}

spec fn recorded<B>(order: Seq<(String, Record<B>)>, id: Seq<char>) -> bool {
    exists|j: int| 0 <= j < order.len() && (#[trigger] order[j]).0@ == id
}

/// Whether a sandbox is among those listed.
pub open spec fn listed(all: Seq<SandboxInfo>, id: Seq<char>) -> bool {
    exists|i: int| 0 <= i < all.len() && (#[trigger] all[i]).sandbox_id@ == id
}

/// Each entry is what is recorded of its sandbox.
pub open spec fn faithful<B>(sandboxes: Map<Seq<char>, Record<B>>, all: Seq<SandboxInfo>) -> bool {
    forall|i: int|
        0 <= i < all.len() ==> sandboxes.dom().contains((#[trigger] all[i]).sandbox_id@)
            && sandboxes[all[i].sandbox_id@].info@ == all[i]@
}

/// No sandbox is listed twice.
pub open spec fn distinct_ids(all: Seq<SandboxInfo>) -> bool {
    forall|i: int, j: int|
        0 <= i < j < all.len() ==> (#[trigger] all[i]).sandbox_id@ != (#[trigger] all[j]).sandbox_id@
}

/// The oldest sandbox comes first.
pub open spec fn by_age(all: Seq<SandboxInfo>) -> bool {
    forall|i: int, j: int|
        0 <= i < j < all.len() ==> (#[trigger] all[i]).created_at_ms <= (
        #[trigger] all[j]).created_at_ms
}

spec fn all_recorded<B>(order: Seq<(String, Record<B>)>, all: Seq<SandboxInfo>) -> bool {
    forall|i: int| 0 <= i < all.len() ==> recorded(order, (#[trigger] all[i]).sandbox_id@)
}

spec fn all_listed<B>(order: Seq<(String, Record<B>)>, all: Seq<SandboxInfo>) -> bool {
    forall|j: int| 0 <= j < order.len() ==> listed(all, (#[trigger] order[j]).0@)
}

/// The entry of the next sandbox is new to the list.
proof fn lemma_is_new<B>(order: Seq<(String, Record<B>)>, n: int, all: Seq<SandboxInfo>)
    requires
        0 <= n < order.len(),
        distinct_keys(order),
        all_recorded(order.take(n), all),
    ensures
        forall|i: int| 0 <= i < all.len() ==> (#[trigger] all[i]).sandbox_id@ != order[n].0@,
{
    let head = order.take(n);
    assert forall|i: int| 0 <= i < all.len() implies (#[trigger] all[i]).sandbox_id@
        != order[n].0@ by {
        assert(recorded(head, all[i].sandbox_id@));
        let j = choose|j: int| 0 <= j < head.len() && (#[trigger] head[j]).0@ == all[i].sandbox_id@;
        assert(order[j].0@ != order[n].0@);
    }
}

proof fn lemma_insert_recorded<B>(
    order: Seq<(String, Record<B>)>,
    n: int,
    all: Seq<SandboxInfo>,
    place: int,
    info: SandboxInfo,
)
    requires
        0 <= n < order.len(),
        0 <= place <= all.len(),
        info.sandbox_id@ == order[n].0@,
        all_recorded(order.take(n), all),
    ensures
        all_recorded(order.take(n + 1), all.insert(place, info)),
{
    let now = all.insert(place, info);
    let head = order.take(n);
    let part = order.take(n + 1);
    assert forall|i: int| 0 <= i < now.len() implies recorded(
        part,
        (#[trigger] now[i]).sandbox_id@,
    ) by {
        if i == place {
            assert(part[n].0@ == now[i].sandbox_id@);
        } else {
            let k = if i < place { i } else { i - 1 };
            assert(now[i] == all[k]);
            assert(recorded(head, all[k].sandbox_id@));
            let j = choose|j: int|
                0 <= j < head.len() && (#[trigger] head[j]).0@ == all[k].sandbox_id@;
            assert(part[j].0@ == now[i].sandbox_id@);
        }
    }
}

proof fn lemma_insert_listed<B>(
    order: Seq<(String, Record<B>)>,
    n: int,
    all: Seq<SandboxInfo>,
    place: int,
    info: SandboxInfo,
)
    requires
        0 <= n < order.len(),
        0 <= place <= all.len(),
        info.sandbox_id@ == order[n].0@,
        all_listed(order.take(n), all),
    ensures
        all_listed(order.take(n + 1), all.insert(place, info)),
{
    let now = all.insert(place, info);
    let head = order.take(n);
    let part = order.take(n + 1);
    assert forall|j: int| 0 <= j < part.len() implies listed(now, (#[trigger] part[j]).0@) by {
        if j == n {
            assert(now[place].sandbox_id@ == part[j].0@);
        } else {
            assert(head[j] == part[j]);
            assert(listed(all, head[j].0@));
            let k = choose|k: int|
                0 <= k < all.len() && (#[trigger] all[k]).sandbox_id@ == head[j].0@;
            let i = if k < place { k } else { k + 1 };
            assert(now[i] == all[k]);
        }
    }
}

proof fn lemma_insert_sorted<B>(
    sandboxes: Map<Seq<char>, Record<B>>,
    all: Seq<SandboxInfo>,
    place: int,
    info: SandboxInfo,
)
    requires
        0 <= place <= all.len(),
        sandboxes.dom().contains(info.sandbox_id@),
        sandboxes[info.sandbox_id@].info@ == info@,
        faithful(sandboxes, all),
        distinct_ids(all),
        by_age(all),
        forall|i: int| 0 <= i < all.len() ==> (#[trigger] all[i]).sandbox_id@ != info.sandbox_id@,
        forall|j: int| place <= j < all.len() ==> (#[trigger] all[j]).created_at_ms > info.created_at_ms,
        place > 0 ==> all[place - 1].created_at_ms <= info.created_at_ms,
    ensures
        faithful(sandboxes, all.insert(place, info)),
        distinct_ids(all.insert(place, info)),
        by_age(all.insert(place, info)),
{
    let now = all.insert(place, info);
    assert forall|i: int| 0 <= i < now.len() implies sandboxes.dom().contains(
        (#[trigger] now[i]).sandbox_id@,
    ) && sandboxes[now[i].sandbox_id@].info@ == now[i]@ by {
        if i < place {
            assert(now[i] == all[i]);
        } else if i > place {
            assert(now[i] == all[i - 1]);
        }
    }
    assert forall|i: int, j: int| 0 <= i < j < now.len() implies (#[trigger] now[i]).sandbox_id@ != (
    #[trigger] now[j]).sandbox_id@ && now[i].created_at_ms <= now[j].created_at_ms by {
        let a = if i < place { i } else { i - 1 };
        let b = if j < place { j } else { j - 1 };
        if i != place && j != place {
            assert(now[i] == all[a] && now[j] == all[b]);
        } else if i == place {
            assert(now[j] == all[b]);
        } else {
            assert(now[i] == all[a]);
            if a < place - 1 {
                assert(all[a].created_at_ms <= all[place - 1].created_at_ms);
            }
        }
    }
}

} // verus!
