//! Sandboxes, commands and snapshots as the runtime's parts exchange them.

use crate::table::Table;
use crate::text::{copy_opt, opt_text};
use vstd::prelude::*;

verus! {

pub type SandboxId = String;

pub type SnapshotId = String;

// ---------------------------------------------------------------------------
// Sandbox states
// ---------------------------------------------------------------------------
#[derive(Clone, Copy, Debug, PartialEq, Eq, Structural)]
pub enum SandboxState {
    Creating,
    Running,
    Paused,
    Stopped,
    Failed,
    Destroyed,
}

/// Whether a sandbox in state `from` may be put into state `to`.
pub open spec fn may_become(from: SandboxState, to: SandboxState) -> bool {
    ||| from == to
    ||| match from {
        SandboxState::Creating => to is Running || to is Failed || to is Destroyed,
        SandboxState::Running => to is Paused || to is Stopped || to is Failed || to is Destroyed,
        SandboxState::Paused => to is Running || to is Stopped || to is Failed || to is Destroyed,
        SandboxState::Stopped => to is Running || to is Failed || to is Destroyed,
        SandboxState::Failed => to is Destroyed,
        SandboxState::Destroyed => false,
    }
}

/// The state's name.
pub open spec fn state_name(state: SandboxState) -> Seq<char> {
    match state {
        SandboxState::Creating => "Creating"@,
        SandboxState::Running => "Running"@,
        SandboxState::Paused => "Paused"@,
        SandboxState::Stopped => "Stopped"@,
        SandboxState::Failed => "Failed"@,
        SandboxState::Destroyed => "Destroyed"@,
    }
}

impl SandboxState {
    pub fn can_transition_to(self, next: Self) -> (b: bool)
        ensures
            b == may_become(self, next),
    {
        if self == next {
            return true;
        }
        match self {
            SandboxState::Creating => matches!(
                next,
                SandboxState::Running | SandboxState::Failed | SandboxState::Destroyed
            ),
            SandboxState::Running => matches!(
                next,
                SandboxState::Paused | SandboxState::Stopped | SandboxState::Failed
                    | SandboxState::Destroyed
            ),
            SandboxState::Paused => matches!(
                next,
                SandboxState::Running | SandboxState::Stopped | SandboxState::Failed
                    | SandboxState::Destroyed
            ),
            SandboxState::Stopped => matches!(
                next,
                SandboxState::Running | SandboxState::Failed | SandboxState::Destroyed
            ),
            SandboxState::Failed => matches!(next, SandboxState::Destroyed),
            SandboxState::Destroyed => false,
        }
    }

    pub fn name(self) -> (r: &'static str)
        ensures
            r@ == state_name(self),
    {
        match self {
            SandboxState::Creating => "Creating",
            SandboxState::Running => "Running",
            SandboxState::Paused => "Paused",
            SandboxState::Stopped => "Stopped",
            SandboxState::Failed => "Failed",
            SandboxState::Destroyed => "Destroyed",
        }
    }
}

/// A destroyed sandbox stays destroyed.
pub proof fn law_destroyed_is_terminal(next: SandboxState)
    ensures
        may_become(SandboxState::Destroyed, next) <==> next is Destroyed,
{
}

/// Every sandbox can be destroyed.
pub proof fn law_every_state_may_be_destroyed(state: SandboxState)
    ensures
        may_become(state, SandboxState::Destroyed),
{
}

// ---------------------------------------------------------------------------
// Requests
// ---------------------------------------------------------------------------
#[derive(Clone, Copy, Debug, PartialEq, Eq, Structural)]
pub enum IdleAction {
    Pause,
    Destroy,
}

impl Default for IdleAction {
    fn default() -> (r: Self)
        ensures
            r is Pause,
    {
        IdleAction::Pause
    }
}

#[derive(Clone, Copy, Debug)]
pub struct ResourceLimits {
    pub cpu_count: u8,
    pub memory_mb: u32,
    pub disk_mb: u32,
    pub max_processes: u32,
}

pub open spec fn default_limits() -> ResourceLimits {
    ResourceLimits { cpu_count: 1, memory_mb: 256, disk_mb: 2048, max_processes: 64 }
}

impl Default for ResourceLimits {
    fn default() -> (r: Self)
        ensures
            r == default_limits(),
    {
        ResourceLimits { cpu_count: 1, memory_mb: 256, disk_mb: 2048, max_processes: 64 }
    }
}

/// What the first limit that is out of range has to be, if there is one.
pub open spec fn limits_error(limits: ResourceLimits) -> Option<Seq<char>> {
    if !(1 <= limits.cpu_count <= 32) {
        Some("cpuCount must be 1..=32"@)
    } else if !(128 <= limits.memory_mb <= 131072) {
        Some("memoryMB must be 128..=131072"@)
    } else if !(256 <= limits.disk_mb <= 1048576) {
        Some("diskMB must be 256..=1048576"@)
    } else if !(1 <= limits.max_processes <= 32768) {
        Some("maxProcesses must be 1..=32768"@)
    } else {
        None
    }
}

impl ResourceLimits {
    pub fn validate(&self) -> (r: Result<(), RuntimeTypeError>)
        ensures
            match limits_error(*self) {
                None => r is Ok,
                Some(text) => r matches Err(e) && e@ == RuntimeTypeErrorView::Invalid(text),
            },
    {
        if !(1 <= self.cpu_count && self.cpu_count <= 32) {
            return Err(RuntimeTypeError::Invalid("cpuCount must be 1..=32".to_owned()));
        }
        if !(128 <= self.memory_mb && self.memory_mb <= 131072) {
            return Err(RuntimeTypeError::Invalid("memoryMB must be 128..=131072".to_owned()));
        }
        if !(256 <= self.disk_mb && self.disk_mb <= 1048576) {
            return Err(RuntimeTypeError::Invalid("diskMB must be 256..=1048576".to_owned()));
        }
        if !(1 <= self.max_processes && self.max_processes <= 32768) {
            return Err(RuntimeTypeError::Invalid("maxProcesses must be 1..=32768".to_owned()));
        }
        Ok(())
    }
}

/// The default limits are within range.
pub proof fn law_default_limits_are_valid()
    ensures
        limits_error(default_limits()) is None,
{
}

#[derive(Debug)]
pub struct NetworkPolicy {
    pub deny_private_network: bool,
    pub allow_cidrs: Vec<String>,
    pub deny_cidrs: Vec<String>,
    pub allow_domains: Vec<String>,
}

impl Default for NetworkPolicy {
    fn default() -> (r: Self)
        ensures
            r.deny_private_network,
            r.allow_cidrs@.len() == 0,
            r.deny_cidrs@.len() == 0,
            r.allow_domains@.len() == 0,
    {
        NetworkPolicy {
            deny_private_network: true,
            allow_cidrs: Vec::new(),
            deny_cidrs: Vec::new(),
            allow_domains: Vec::new(),
        }
    }
}

#[derive(Debug)]
pub struct KnowledgeMount {
    pub bucket: String,
    pub prefix: String,
    pub version: String,
    pub mount_path: String,
}

pub const DEFAULT_KNOWLEDGE_PATH: &'static str = "/knowledge";

pub const DEFAULT_TEMPLATE: &'static str = "debian-slim";

pub const DEFAULT_TIMEOUT_SECONDS: u64 = 3600;

#[derive(Debug)]
pub struct CreateSandboxRequest {
    pub template: String,
    pub resources: ResourceLimits,
    pub timeout_seconds: u64,
    pub idle_action: IdleAction,
    pub network: NetworkPolicy,
    pub env: Table<String>,
    pub secrets: Table<String>,
    pub knowledge: Option<KnowledgeMount>,
    pub snapshot_id: Option<SnapshotId>,
    pub session_id: Option<String>,
}

impl Default for CreateSandboxRequest {
    fn default() -> (r: Self)
        ensures
            r.template@ == DEFAULT_TEMPLATE@,
            r.resources == default_limits(),
            r.timeout_seconds == DEFAULT_TIMEOUT_SECONDS,
            r.idle_action is Pause,
            r.network.deny_private_network,
            r.network.allow_cidrs@.len() == 0,
            r.network.deny_cidrs@.len() == 0,
            r.network.allow_domains@.len() == 0,
            r.env@ == Map::<Seq<char>, String>::empty(),
            r.secrets@ == Map::<Seq<char>, String>::empty(),
            r.knowledge is None,
            r.snapshot_id is None,
            r.session_id is None,
    {
        CreateSandboxRequest {
            template: DEFAULT_TEMPLATE.to_owned(),
            resources: ResourceLimits::default(),
            timeout_seconds: DEFAULT_TIMEOUT_SECONDS,
            idle_action: IdleAction::default(),
            network: NetworkPolicy::default(),
            env: Table::new(),
            secrets: Table::new(),
            knowledge: None,
            snapshot_id: None,
            session_id: None,
        }
    }
}

pub const DEFAULT_CWD: &'static str = "/workspace";

pub const DEFAULT_COMMAND_TIMEOUT_MS: u64 = 30000;

#[derive(Debug)]
pub struct CommandRequest {
    pub command: Vec<String>,
    pub cwd: String,
    pub env: Table<String>,
    pub timeout_ms: u64,
    pub stdin: Option<Vec<u8>>,
}

// ---------------------------------------------------------------------------
// Results
// ---------------------------------------------------------------------------
#[derive(Debug)]
pub struct SandboxInfo {
    pub sandbox_id: SandboxId,
    pub session_id: String,
    pub state: SandboxState,
    pub resources: ResourceLimits,
    pub created_at_ms: u64,
    pub last_active_at_ms: u64,
    pub expires_at_ms: u64,
    pub has_secrets: bool,
    pub knowledge_version: Option<String>,
    pub failure_reason: Option<String>,
}

/// The mathematical counterpart of [`SandboxInfo`].
pub struct InfoView {
    pub sandbox_id: Seq<char>,
    pub session_id: Seq<char>,
    pub state: SandboxState,
    pub resources: ResourceLimits,
    pub created_at_ms: u64,
    pub last_active_at_ms: u64,
    pub expires_at_ms: u64,
    pub has_secrets: bool,
    pub knowledge_version: Option<Seq<char>>,
    pub failure_reason: Option<Seq<char>>,
}

impl View for SandboxInfo {
    type V = InfoView;

    open spec fn view(&self) -> InfoView {
        InfoView {
            sandbox_id: self.sandbox_id@,
            session_id: self.session_id@,
            state: self.state,
            resources: self.resources,
            created_at_ms: self.created_at_ms,
            last_active_at_ms: self.last_active_at_ms,
            expires_at_ms: self.expires_at_ms,
            has_secrets: self.has_secrets,
            knowledge_version: opt_text(self.knowledge_version),
            failure_reason: opt_text(self.failure_reason),
        }
    }
}

impl SandboxInfo {
    pub fn duplicate(&self) -> (r: Self)
        ensures
            r@ == self@,
    {
        SandboxInfo {
            sandbox_id: self.sandbox_id.clone(),
            session_id: self.session_id.clone(),
            state: self.state,
            resources: self.resources,
            created_at_ms: self.created_at_ms,
            last_active_at_ms: self.last_active_at_ms,
            expires_at_ms: self.expires_at_ms,
            has_secrets: self.has_secrets,
            knowledge_version: copy_opt(&self.knowledge_version),
            failure_reason: copy_opt(&self.failure_reason),
        }
    }
}

#[derive(Debug)]
pub struct CommandResult {
    pub command_id: String,
    pub exit_code: Option<i32>,
    pub stdout: Vec<u8>,
    pub stderr: Vec<u8>,
    pub duration_ms: u64,
    pub timed_out: bool,
}

#[derive(Debug)]
pub struct FileEntry {
    pub path: String,
    pub kind: String,
    pub size: u64,
    pub modified_at_ms: u64,
}

#[derive(Debug)]
pub struct SnapshotInfo {
    pub snapshot_id: SnapshotId,
    pub source_sandbox_id: SandboxId,
    pub created_at_ms: u64,
    pub size_bytes: u64,
    pub manifest_version: u32,
}

/// The mathematical counterpart of [`SnapshotInfo`].
pub struct SnapshotView {
    pub snapshot_id: Seq<char>,
    pub source_sandbox_id: Seq<char>,
    pub created_at_ms: u64,
    pub size_bytes: u64,
    pub manifest_version: u32,
}

impl View for SnapshotInfo {
    type V = SnapshotView;

    open spec fn view(&self) -> SnapshotView {
        SnapshotView {
            snapshot_id: self.snapshot_id@,
            source_sandbox_id: self.source_sandbox_id@,
            created_at_ms: self.created_at_ms,
            size_bytes: self.size_bytes,
            manifest_version: self.manifest_version,
        }
    }
}

impl SnapshotInfo {
    pub fn duplicate(&self) -> (r: Self)
        ensures
            r@ == self@,
    {
        SnapshotInfo {
            snapshot_id: self.snapshot_id.clone(),
            source_sandbox_id: self.source_sandbox_id.clone(),
            created_at_ms: self.created_at_ms,
            size_bytes: self.size_bytes,
            manifest_version: self.manifest_version,
        }
    }
}

#[derive(Debug)]
pub struct ErrorBody {
    pub code: String,
    pub message: String,
    pub request_id: Option<String>,
}

#[derive(Debug)]
pub enum RuntimeTypeError {
    Invalid(String),
    IllegalTransition { from: SandboxState, to: SandboxState },
}

/// The mathematical counterpart of [`RuntimeTypeError`].
pub enum RuntimeTypeErrorView {
    Invalid(Seq<char>),
    IllegalTransition { from: SandboxState, to: SandboxState },
}

impl View for RuntimeTypeError {
    type V = RuntimeTypeErrorView;

    open spec fn view(&self) -> RuntimeTypeErrorView {
        match self {
            RuntimeTypeError::Invalid(text) => RuntimeTypeErrorView::Invalid(text@),
            RuntimeTypeError::IllegalTransition { from, to } => {
                RuntimeTypeErrorView::IllegalTransition { from: *from, to: *to }
            },
        }
    }
}

/// The error in words.
pub open spec fn type_error_text(error: RuntimeTypeErrorView) -> Seq<char> {
    match error {
        RuntimeTypeErrorView::Invalid(text) => text,
        RuntimeTypeErrorView::IllegalTransition { from, to } => "illegal state transition "@
            + state_name(from) + " -> "@ + state_name(to),
    }
}

impl RuntimeTypeError {
    pub fn message(&self) -> (r: String)
        ensures
            r@ == type_error_text(self@),
    {
        match self {
            RuntimeTypeError::Invalid(text) => text.clone(),
            RuntimeTypeError::IllegalTransition { from, to } => {
                let mut out: String = "illegal state transition ".to_owned();
                out.push_str(from.name());
                out.push_str(" -> ");
                out.push_str(to.name());
                out
            },
        }
    }
}

// ---------------------------------------------------------------------------
// Identifiers and time
// ---------------------------------------------------------------------------
pub open spec fn is_lower_hex(c: char) -> bool {
    ('0' <= c && c <= '9') || ('a' <= c && c <= 'f')
}

/// The digits of a time-ordered identifier: thirty-two of them, lower case, with
/// the version in its place.
pub open spec fn is_uuid_text(s: Seq<char>) -> bool {
    &&& s.len() == 32
    &&& forall|i: int| 0 <= i < 32 ==> is_lower_hex(#[trigger] s[i])
    &&& s[12] == '7'
}

/// `uuid::Uuid::now_v7` printed by `Uuid::simple`: which identifier it is rests on
/// the clock and on chance; it is written as thirty-two lower-case hexadecimal
/// digits, and the thirteenth is the version. The call panics where the clock
/// stands before 1970.
#[verifier::external_body]
fn uuid_text() -> (r: String)
    ensures
        is_uuid_text(r@),
{
    uuid::Uuid::now_v7().simple().to_string()
}

/// A prefix, an underscore and the digits of an identifier.
pub open spec fn is_id(s: Seq<char>, prefix: Seq<char>) -> bool {
    &&& s.len() == prefix.len() + 33
    &&& s.take(prefix.len() as int + 1) == prefix.push('_')
    &&& is_uuid_text(s.skip(prefix.len() as int + 1))
}

pub fn new_id(prefix: &str) -> (r: String)
    ensures
        is_id(r@, prefix@),
{
    let mut out: String = prefix.to_owned();
    out.push('_');
    let digits = uuid_text();
    out.push_str(digits.as_str());
    proof {
        assert(out@.take(prefix@.len() as int + 1) =~= prefix@.push('_'));
        assert(out@.skip(prefix@.len() as int + 1) =~= digits@);
    }
    out
}

/// `std::time::SystemTime::duration_since` for the current time and the Unix
/// epoch, in milliseconds; nothing where the clock stands before the epoch.
#[verifier::external_body]
fn unix_millis() -> (r: Option<u128>) {
    std::time::SystemTime::now().duration_since(std::time::UNIX_EPOCH).ok().map(|d| d.as_millis())
}

/// A reading of the clock as a timestamp: nothing counts as zero, and what does
/// not fit is the last moment there is.
pub fn timestamp_of(millis: Option<u128>) -> (r: u64)
    ensures
        r == match millis {
            None => 0int,
            Some(m) if m > u64::MAX => u64::MAX as int,
            Some(m) => m as int,
        },
{
    match millis {
        None => 0,
        Some(m) => {
            if m > u64::MAX as u128 {
                u64::MAX
            } else {
                m as u64
            }
        },
    }
}

/// The current time in milliseconds since the Unix epoch.
pub fn now_ms() -> (r: u64) {
    timestamp_of(unix_millis())
}

/// `timestamp` plus a number of seconds, as far as it can be counted.
pub open spec fn deadline(timestamp: u64, seconds: u64) -> u64 {
    let ms = if seconds * 1000 > u64::MAX { u64::MAX as int } else { seconds * 1000 };
    if timestamp + ms > u64::MAX {
        u64::MAX
    } else {
        (timestamp + ms) as u64
    }
}

pub fn expiry(timestamp: u64, seconds: u64) -> (r: u64)
    ensures
        r == deadline(timestamp, seconds),
{
    match seconds.checked_mul(1000) {
        Some(ms) => timestamp.saturating_add(ms),
        None => u64::MAX,
    }
}

} // verus!
