//! The agent in the guest: what each request has it do, and what it answers.
//!
//! The caller performs the actions: it starts processes, reads and writes files
//! and sends signals. What it hands back decides the response.

use crate::protocol::{path_error, validate_guest_path, AgentRequest, AgentResponse, PROTOCOL_VERSION};
use crate::table::{text_map, Table};
use crate::text::{
    chars_of, decimal, find, has_sub, lemma_decimal_digits, lemma_decimal_injective, lemma_find_sub,
    push_decimal,
};
use crate::types::{CommandRequest, CommandResult, FileEntry};
use vstd::prelude::*;
use vstd::utf8::encode_utf8;

verus! {

pub const SEARCH_PATH: &'static str = "/usr/local/bin:/usr/bin:/bin";

pub const HOME_DIRECTORY: &'static str = "/home";

/// Bytes of output that are kept of each stream.
pub const MAX_OUTPUT_BYTES: usize = 1048576;

/// A process to be started.
#[derive(Debug)]
pub struct SpawnPlan {
    pub program: String,
    pub args: Vec<String>,
    pub cwd: String,
    /// The whole environment; nothing is inherited.
    pub env: Table<String>,
    pub stdin: Option<Vec<u8>>,
    pub timeout_ms: u64,
}

#[derive(Debug)]
pub enum AgentAction {
    /// Nothing is left to do.
    Reply(AgentResponse),
    /// Limit the number of processes, then hand the outcome to [`Agent::configured`].
    Configure { env: Table<String>, max_processes: u32 },
    /// Start the process under an identifier from [`Agent::next_command_id`].
    Spawn(SpawnPlan),
    /// Read the file unless [`read_refusal`] says otherwise.
    ReadFile { path: String, max_bytes: u64 },
    WriteFile { path: String, data: Vec<u8> },
    ListDir { path: String },
    Stat { path: String },
    /// Make the directory with those above it.
    Mkdir { path: String },
    Remove { path: String, recursive: bool },
    Sync,
    /// Kill the process.
    Kill { pid: u32 },
}

/// How a process ended.
#[derive(Debug)]
pub enum CommandOutcome {
    Finished { exit_code: Option<i32>, stdout: Vec<u8>, stderr: Vec<u8> },
    /// It could not be run.
    Failed(String),
    TimedOut,
}

pub open spec fn is_error(r: AgentResponse, code: Seq<char>, message: Seq<char>) -> bool {
    r matches AgentResponse::Error { code: c, message: m } && c@ == code && m@ == message
}

/// The action is to answer with an error.
pub open spec fn refuses(a: AgentAction, code: Seq<char>, message: Seq<char>) -> bool {
    a matches AgentAction::Reply(r) && is_error(r, code, message)
}

pub fn error_response(code: &str, message: String) -> (r: AgentResponse)
    ensures
        is_error(r, code@, message@),
{
    AgentResponse::Error { code: code.to_owned(), message }
}

/// The answer to a failed input or output operation.
pub fn agent_error(message: String) -> (r: AgentResponse)
    ensures
        is_error(r, "IO_ERROR"@, message@),
{
    error_response("IO_ERROR", message)
}

/// The answer to an operation that gives nothing back.
pub fn operation_done(outcome: Result<(), String>) -> (r: AgentResponse)
    ensures
        match outcome {
            Ok(_) => r is Empty,
            Err(message) => is_error(r, "IO_ERROR"@, message@),
        },
{
    match outcome {
        Ok(_) => AgentResponse::Empty,
        Err(message) => agent_error(message),
    }
}

// ---------------------------------------------------------------------------
// Commands
// ---------------------------------------------------------------------------
/// Why a command is not run, if it is not: a code and a message.
pub open spec fn command_error(request: CommandRequest) -> Option<(Seq<char>, Seq<char>)> {
    if request.command@.len() == 0 {
        Some(("INVALID_COMMAND"@, "command cannot be empty"@))
    } else {
        match path_error(request.cwd@, false) {
            Some(text) => Some(("ACCESS_DENIED"@, text)),
            None => None,
        }
    }
}

/// The variables that every command has.
pub open spec fn standard_env() -> Map<Seq<char>, Seq<char>> {
    map!["PATH"@ => SEARCH_PATH@, "HOME"@ => HOME_DIRECTORY@]
}

/// What a command finds in its environment: the caller's variables go before those
/// the agent was configured with, and these before the standard ones.
pub open spec fn command_env(
    base: Map<Seq<char>, Seq<char>>,
    own: Map<Seq<char>, Seq<char>>,
) -> Map<Seq<char>, Seq<char>> {
    standard_env().union_prefer_right(base).union_prefer_right(own)
}

/// The process is the one that the request asks for.
pub open spec fn spawns(
    plan: SpawnPlan,
    request: CommandRequest,
    base: Map<Seq<char>, Seq<char>>,
) -> bool {
    &&& plan.program == request.command@[0]
    &&& plan.args@ == request.command@.skip(1)
    &&& plan.cwd == request.cwd
    &&& text_map(plan.env@) == command_env(base, text_map(request.env@))
    &&& plan.stdin == request.stdin
    &&& plan.timeout_ms == request.timeout_ms
}

/// The variables of a command's environment come from nowhere else.
pub proof fn law_environment_is_clean(
    base: Map<Seq<char>, Seq<char>>,
    own: Map<Seq<char>, Seq<char>>,
    name: Seq<char>,
)
    ensures
        command_env(base, own).dom().contains(name) <==> name == "PATH"@ || name == "HOME"@
            || base.dom().contains(name) || own.dom().contains(name),
        own.dom().contains(name) ==> command_env(base, own)[name] == own[name],
{
}

fn environment(base: &Table<String>, own: &Table<String>) -> (r: Table<String>)
    ensures
        text_map(r@) == command_env(text_map(base@), text_map(own@)),
{
    let mut env: Table<String> = Table::new();
    env.insert("PATH".to_owned(), SEARCH_PATH.to_owned());
    env.insert("HOME".to_owned(), HOME_DIRECTORY.to_owned());
    proof {
        reveal_strlit("PATH");
        reveal_strlit("HOME");
        assert("PATH"@[0] != "HOME"@[0]);
        assert(text_map(env@) =~= standard_env());
    }
    let ghost standard = env@;
    env.extend_from(base);
    let ghost middle = env@;
    assert(text_map(middle) =~= standard_env().union_prefer_right(text_map(base@)));
    env.extend_from(own);
    assert(text_map(env@) =~= text_map(middle).union_prefer_right(text_map(own@)));
    env
}

fn plan_command(base: &Table<String>, request: CommandRequest) -> (r: AgentAction)
    ensures
        match command_error(request) {
            Some((code, text)) => refuses(r, code, text),
            None => r matches AgentAction::Spawn(plan) && spawns(plan, request, text_map(base@)),
        },
{
    if request.command.len() == 0 {
        return AgentAction::Reply(
            error_response("INVALID_COMMAND", "command cannot be empty".to_owned()),
        );
    }
    if let Err(message) = validate_guest_path(request.cwd.as_str(), false) {
        return AgentAction::Reply(error_response("ACCESS_DENIED", message.to_owned()));
    }
    let env = environment(base, &request.env);
    let mut command = request.command;
    let program = command.remove(0);
    assert(command@ =~= request.command@.skip(1));
    AgentAction::Spawn(
        SpawnPlan {
            program,
            args: command,
            cwd: request.cwd,
            env,
            stdin: request.stdin,
            timeout_ms: request.timeout_ms,
        },
    )
}

/// As much of a stream as is kept.
pub open spec fn capped(bytes: Seq<u8>) -> Seq<u8> {
    if bytes.len() > MAX_OUTPUT_BYTES {
        bytes.take(MAX_OUTPUT_BYTES as int)
    } else {
        bytes
    }
}

pub fn truncate(bytes: Vec<u8>) -> (r: Vec<u8>)
    ensures
        r@ == capped(bytes@),
{
    let mut out = bytes;
    out.truncate(MAX_OUTPUT_BYTES);
    assert(out@ =~= capped(bytes@));
    out
}

/// What a command that ended is reported as.
pub open spec fn reports(
    c: CommandResult,
    command_id: Seq<char>,
    outcome: CommandOutcome,
    duration_ms: u64,
) -> bool {
    &&& c.command_id@ == command_id
    &&& c.duration_ms == duration_ms
    &&& match outcome {
        CommandOutcome::Finished { exit_code, stdout, stderr } => {
            &&& c.exit_code == exit_code
            &&& c.stdout@ == capped(stdout@)
            &&& c.stderr@ == capped(stderr@)
            &&& !c.timed_out
        },
        CommandOutcome::Failed(message) => {
            &&& c.exit_code is None
            &&& c.stdout@ == Seq::<u8>::empty()
            &&& c.stderr@ == encode_utf8(message@)
            &&& !c.timed_out
        },
        CommandOutcome::TimedOut => {
            &&& c.exit_code is None
            &&& c.stdout@ == Seq::<u8>::empty()
            &&& c.stderr@ == encode_utf8("command timed out"@)
            &&& c.timed_out
        },
    }
}

/// A reported command holds at most a mebibyte of either stream, where it ran.
pub proof fn law_output_is_capped(
    c: CommandResult,
    command_id: Seq<char>,
    outcome: CommandOutcome,
    duration_ms: u64,
)
    requires
        reports(c, command_id, outcome, duration_ms),
        outcome is Finished,
    ensures
        c.stdout@.len() <= MAX_OUTPUT_BYTES,
        c.stderr@.len() <= MAX_OUTPUT_BYTES,
        outcome->stdout@.len() <= MAX_OUTPUT_BYTES ==> c.stdout@ == outcome->stdout@,
{
}

fn report(command_id: String, outcome: CommandOutcome, duration_ms: u64) -> (c: CommandResult)
    ensures
        reports(c, command_id@, outcome, duration_ms),
{
    match outcome {
        CommandOutcome::Finished { exit_code, stdout, stderr } => {
            let stdout = truncate(stdout);
            let stderr = truncate(stderr);
            CommandResult { command_id, exit_code, stdout, stderr, duration_ms, timed_out: false }
        },
        CommandOutcome::Failed(message) => {
            let stderr = crate::text::copy_bytes(message.as_str().as_bytes());
            CommandResult {
                command_id,
                exit_code: None,
                stdout: Vec::new(),
                stderr,
                duration_ms,
                timed_out: false,
            }
        },
        CommandOutcome::TimedOut => {
            let stderr = crate::text::copy_bytes("command timed out".as_bytes());
            CommandResult {
                command_id,
                exit_code: None,
                stdout: Vec::new(),
                stderr,
                duration_ms,
                timed_out: true,
            }
        },
    }
}

// ---------------------------------------------------------------------------
// Command identifiers
// ---------------------------------------------------------------------------
/// The identifier of the command with a sequence number, started at a time.
pub open spec fn command_id(now: u64, sequence: u64) -> Seq<char> {
    "cmd_"@ + decimal(now as nat) + "_"@ + decimal(sequence as nat)
}

/// Commands with different sequence numbers have different identifiers, whatever
/// the clock says.
pub proof fn law_command_ids_are_distinct(now: u64, sequence: u64, later: u64, other: u64)
    requires
        sequence != other,
    ensures
        command_id(now, sequence) != command_id(later, other),
{
    reveal_strlit("cmd_");
    reveal_strlit("_");
    let a = command_id(now, sequence);
    let b = command_id(later, other);
    if a == b {
        lemma_decimal_digits(now as nat);
        lemma_decimal_digits(later as nat);
        lemma_decimal_digits(sequence as nat);
        lemma_decimal_digits(other as nat);
        let p = 4 + decimal(now as nat).len() as int;
        let q = 4 + decimal(later as nat).len() as int;
        assert(a[p] == '_' && b[q] == '_');
        if p < q {
            assert(a[q] == decimal(sequence as nat)[q - p - 1]);
        } else if q < p {
            assert(b[p] == decimal(other as nat)[p - q - 1]);
        }
        assert(a.skip(p + 1) =~= decimal(sequence as nat));
        assert(b.skip(q + 1) =~= decimal(other as nat));
        lemma_decimal_injective(sequence as nat, other as nat);
    }
}

// ---------------------------------------------------------------------------
// Files
// ---------------------------------------------------------------------------
/// Why a file of a known size is not read, if it is not.
pub fn read_refusal(len: u64, max_bytes: u64) -> (r: Option<AgentResponse>)
    ensures
        match r {
            Some(e) => len > max_bytes && is_error(e, "IO_ERROR"@, "file exceeds read limit"@),
            None => len <= max_bytes,
        },
{
    if len > max_bytes {
        Some(agent_error("file exceeds read limit".to_owned()))
    } else {
        None
    }
}

pub fn read_done(outcome: Result<Vec<u8>, String>) -> (r: AgentResponse)
    ensures
        match outcome {
            Ok(bytes) => r == AgentResponse::Bytes(bytes),
            Err(message) => is_error(r, "IO_ERROR"@, message@),
        },
{
    match outcome {
        Ok(bytes) => AgentResponse::Bytes(bytes),
        Err(message) => agent_error(message),
    }
}

/// What the file system says of a path, and when it was asked.
#[derive(Debug)]
pub struct PathStatus {
    pub path: String,
    pub is_dir: bool,
    pub size: u64,
    pub now: u64,
}

pub open spec fn describes(entry: FileEntry, status: PathStatus) -> bool {
    &&& entry.path == status.path
    &&& entry.kind@ == if status.is_dir { "directory"@ } else { "file"@ }
    &&& entry.size == status.size
    &&& entry.modified_at_ms == status.now
}

pub fn entry_of(status: PathStatus) -> (r: FileEntry)
    ensures
        describes(r, status),
{
    let kind = if status.is_dir { "directory".to_owned() } else { "file".to_owned() };
    FileEntry { path: status.path, kind, size: status.size, modified_at_ms: status.now }
}

pub fn stat_done(outcome: Result<PathStatus, String>) -> (r: AgentResponse)
    ensures
        match outcome {
            Ok(status) => r matches AgentResponse::Entry(e) && describes(e, status),
            Err(message) => is_error(r, "IO_ERROR"@, message@),
        },
{
    match outcome {
        Ok(status) => AgentResponse::Entry(entry_of(status)),
        Err(message) => agent_error(message),
    }
}

/// The first path among those of a directory that may not be read.
pub open spec fn listing_error(children: Seq<PathStatus>) -> Option<Seq<char>>
    decreases children.len(),
{
    if children.len() == 0 {
        None
    } else {
        match listing_error(children.drop_last()) {
            Some(text) => Some(text),
            None => path_error(children.last().path@, false),
        }
    }
}

/// The answer to a listing: the children that were looked at, and why it ended
/// early if it did.
pub fn list_done(children: Vec<PathStatus>, failure: Option<String>) -> (r: AgentResponse)
    ensures
        match listing_error(children@) {
            Some(text) => is_error(r, "IO_ERROR"@, text),
            None => match failure {
                Some(message) => is_error(r, "IO_ERROR"@, message@),
                None => r matches AgentResponse::Entries(entries) && entries@.len()
                    == children@.len() && forall|i: int|
                    0 <= i < entries@.len() ==> describes(#[trigger] entries@[i], children@[i]),
            },
        },
{
    let n = children.len();
    for i in 0..n
        invariant
            n == children@.len(),
            listing_error(children@.take(i as int)) is None,
    {
        assert(children@.take(i + 1).drop_last() =~= children@.take(i as int));
        if let Err(message) = validate_guest_path(children[i].path.as_str(), false) {
            proof {
                lemma_listing_error(children@, i as int);
            }
            return agent_error(message.to_owned());
        }
    }
    assert(children@.take(n as int) =~= children@);
    if let Some(message) = failure {
        return agent_error(message);
    }
    let ghost all = children@;
    let mut rest = children;
    let mut entries: Vec<FileEntry> = Vec::new();
    while rest.len() > 0
        invariant
            entries@.len() + rest@.len() == all.len(),
            rest@ == all.skip(entries@.len() as int),
            forall|i: int|
                0 <= i < entries@.len() ==> describes(#[trigger] entries@[i], all[i]),
        decreases rest@.len(),
    {
        let status = rest.remove(0);
        entries.push(entry_of(status));
        assert(rest@ =~= all.skip(entries@.len() as int));
    }
    AgentResponse::Entries(entries)
}

proof fn lemma_listing_error(children: Seq<PathStatus>, i: int)
    requires
        0 <= i < children.len(),
        listing_error(children.take(i)) is None,
        path_error(children[i].path@, false) is Some,
    ensures
        listing_error(children) == path_error(children[i].path@, false),
    decreases children.len(),
{
    if i == children.len() - 1 {
        assert(children.drop_last() =~= children.take(i));
    } else {
        let front = children.drop_last();
        assert(front.take(i) =~= children.take(i));
        lemma_listing_error(front, i);
    }
}

// ---------------------------------------------------------------------------
// The agent
// ---------------------------------------------------------------------------
/// What the agent keeps from one request to the next.
#[derive(Debug)]
pub struct Agent {
    /// The variables it was configured with.
    pub base_env: Table<String>,
    /// The processes of the commands that run.
    pub running: Table<u32>,
    /// The number of the next command.
    pub sequence: u64,
}

/// Whether the request is about a path that may not be touched.
pub open spec fn denies(a: AgentAction, path: Seq<char>, writable: bool, code: Seq<char>) -> bool {
    match path_error(path, writable) {
        Some(text) => refuses(a, code, text),
        None => false,
    }
}

/// The action that a request leads to.
pub open spec fn leads_to(agent: Agent, request: AgentRequest, a: AgentAction) -> bool {
    match request {
        AgentRequest::Ready => a == AgentAction::Reply(
            AgentResponse::Ready { version: PROTOCOL_VERSION },
        ),
        AgentRequest::Configure { env, max_processes } => a == AgentAction::Configure {
            env,
            max_processes,
        },
        AgentRequest::Run(command) => match command_error(command) {
            Some((code, text)) => refuses(a, code, text),
            None => a matches AgentAction::Spawn(plan) && spawns(
                plan,
                command,
                text_map(agent.base_env@),
            ),
        },
        AgentRequest::Kill { command_id } => if agent.running@.dom().contains(command_id@) {
            a == AgentAction::Kill { pid: agent.running@[command_id@] }
        } else {
            refuses(a, "COMMAND_NOT_FOUND"@, "command is not running"@)
        },
        AgentRequest::ReadFile { path, max_bytes } => denies(a, path@, false, "IO_ERROR"@) || (
        path_error(path@, false) is None && a == AgentAction::ReadFile { path, max_bytes }),
        AgentRequest::WriteFile { path, data, mode } => denies(a, path@, true, "IO_ERROR"@) || (
        path_error(path@, true) is None && a == AgentAction::WriteFile { path, data }),
        AgentRequest::ListDir { path } => denies(a, path@, false, "IO_ERROR"@) || (path_error(
            path@,
            false,
        ) is None && a == AgentAction::ListDir { path }),
        AgentRequest::Stat { path } => denies(a, path@, false, "IO_ERROR"@) || (path_error(
            path@,
            false,
        ) is None && a == AgentAction::Stat { path }),
        AgentRequest::Mkdir { path, recursive } => denies(a, path@, true, "ACCESS_DENIED"@) || (
        path_error(path@, true) is None && a == AgentAction::Mkdir { path }),
        AgentRequest::Remove { path, recursive } => denies(a, path@, true, "ACCESS_DENIED"@) || (
        path_error(path@, true) is None && a == AgentAction::Remove { path, recursive }),
        AgentRequest::Sync => a is Sync,
        AgentRequest::Shutdown => a == AgentAction::Reply(AgentResponse::Empty),
    }
}

/// The variables are taken over once the process limit was set.
pub open spec fn is_configured(
    before: Agent,
    env: Table<String>,
    outcome: Result<(), String>,
    after: Agent,
    r: AgentResponse,
) -> bool {
    &&& after.running == before.running
    &&& after.sequence == before.sequence
    &&& match outcome {
        Ok(_) => r is Empty && after.base_env == env,
        Err(message) => is_error(r, "RESOURCE_LIMIT"@, message@) && after.base_env
            == before.base_env,
    }
}

/// The next number is taken for a command.
pub open spec fn takes_number(before: Agent, now: u64, after: Agent, id: Seq<char>) -> bool {
    &&& id == command_id(now, before.sequence)
    &&& after.sequence == if before.sequence == u64::MAX {
        0
    } else {
        (before.sequence + 1) as u64
    }
    &&& after.base_env == before.base_env
    &&& after.running == before.running
}

/// The process of a command is remembered.
pub open spec fn begins(before: Agent, command_id: Seq<char>, pid: u32, after: Agent) -> bool {
    &&& after.running@ == before.running@.insert(command_id, pid)
    &&& after.base_env == before.base_env
    &&& after.sequence == before.sequence
}

/// The process of a command is forgotten, and the command reported.
pub open spec fn ends(
    before: Agent,
    command_id: Seq<char>,
    outcome: CommandOutcome,
    duration_ms: u64,
    after: Agent,
    r: AgentResponse,
) -> bool {
    &&& after.running@ == before.running@.remove(command_id)
    &&& after.base_env == before.base_env
    &&& after.sequence == before.sequence
    &&& r matches AgentResponse::Command(c) && reports(c, command_id, outcome, duration_ms)
}

fn deny(path: &str, writable: bool, code: &str) -> (r: Option<AgentAction>)
    ensures
        match r {
            Some(a) => denies(a, path@, writable, code@),
            None => path_error(path@, writable) is None,
        },
{
    match validate_guest_path(path, writable) {
        Ok(_) => None,
        Err(message) => Some(AgentAction::Reply(error_response(code, message.to_owned()))),
    }
}

impl Agent {
    pub fn new() -> (r: Self)
        ensures
            r.base_env@ == Map::<Seq<char>, String>::empty(),
            r.running@ == Map::<Seq<char>, u32>::empty(),
            r.sequence == 0,
    {
        Agent { base_env: Table::new(), running: Table::new(), sequence: 0 }
    }

    /// What a request has the agent do.
    pub fn plan(&self, request: AgentRequest) -> (a: AgentAction)
        ensures
            leads_to(*self, request, a),
    {
        match request {
            AgentRequest::Ready => AgentAction::Reply(
                AgentResponse::Ready { version: PROTOCOL_VERSION },
            ),
            AgentRequest::Configure { env, max_processes } => AgentAction::Configure {
                env,
                max_processes,
            },
            AgentRequest::Run(command) => plan_command(&self.base_env, command),
            AgentRequest::Kill { command_id } => match self.running.get(command_id.as_str()) {
                Some(pid) => AgentAction::Kill { pid: *pid },
                None => AgentAction::Reply(
                    error_response("COMMAND_NOT_FOUND", "command is not running".to_owned()),
                ),
            },
            AgentRequest::ReadFile { path, max_bytes } => match deny(
                path.as_str(),
                false,
                "IO_ERROR",
            ) {
                Some(a) => a,
                None => AgentAction::ReadFile { path, max_bytes },
            },
            AgentRequest::WriteFile { path, data, mode: _ } => match deny(
                path.as_str(),
                true,
                "IO_ERROR",
            ) {
                Some(a) => a,
                None => AgentAction::WriteFile { path, data },
            },
            AgentRequest::ListDir { path } => match deny(path.as_str(), false, "IO_ERROR") {
                Some(a) => a,
                None => AgentAction::ListDir { path },
            },
            AgentRequest::Stat { path } => match deny(path.as_str(), false, "IO_ERROR") {
                Some(a) => a,
                None => AgentAction::Stat { path },
            },
            AgentRequest::Mkdir { path, recursive: _ } => match deny(
                path.as_str(),
                true,
                "ACCESS_DENIED",
            ) {
                Some(a) => a,
                None => AgentAction::Mkdir { path },
            },
            AgentRequest::Remove { path, recursive } => match deny(
                path.as_str(),
                true,
                "ACCESS_DENIED",
            ) {
                Some(a) => a,
                None => AgentAction::Remove { path, recursive },
            },
            AgentRequest::Sync => AgentAction::Sync,
            AgentRequest::Shutdown => AgentAction::Reply(AgentResponse::Empty),
        }
    }

    /// Takes over the configured variables once the process limit was set.
    pub fn configured(&mut self, env: Table<String>, outcome: Result<(), String>) -> (r:
        AgentResponse)
        ensures
            is_configured(*old(self), env, outcome, *final(self), r),
    {
        match outcome {
            Ok(_) => {
                self.base_env = env;
                AgentResponse::Empty
            },
            Err(message) => error_response("RESOURCE_LIMIT", message),
        }
    }

    /// The identifier of the next command: the time and a number that no other
    /// command has, so that it needs no entropy.
    pub fn next_command_id(&mut self, now: u64) -> (r: String)
        ensures
            takes_number(*old(self), now, *final(self), r@),
    {
        let sequence = self.sequence;
        self.sequence = if sequence == u64::MAX { 0 } else { sequence + 1 };
        let mut out: String = "cmd_".to_owned();
        push_decimal(&mut out, now);
        out.push_str("_");
        push_decimal(&mut out, sequence);
        out
    }

    /// Remembers the process of a command.
    pub fn started(&mut self, command_id: String, pid: u32)
        ensures
            begins(*old(self), command_id@, pid, *final(self)),
    {
        self.running.insert(command_id, pid);
    }

    /// Forgets the process of a command that ended, and reports the command.
    pub fn finished(&mut self, command_id: String, outcome: CommandOutcome, duration_ms: u64) -> (r:
        AgentResponse)
        ensures
            ends(*old(self), command_id@, outcome, duration_ms, *final(self), r),
    {
        self.running.remove(command_id.as_str());
        AgentResponse::Command(report(command_id, outcome, duration_ms))
    }
}

pub fn kill_done(outcome: Result<(), String>) -> (r: AgentResponse)
    ensures
        match outcome {
            Ok(_) => r is Empty,
            Err(message) => is_error(r, "KILL_FAILED"@, message@),
        },
{
    match outcome {
        Ok(_) => AgentResponse::Empty,
        Err(message) => error_response("KILL_FAILED", message),
    }
}

/// The answer to a line that is no request.
pub fn invalid_request(message: String) -> (r: AgentResponse)
    ensures
        is_error(r, "INVALID_REQUEST"@, message@),
{
    error_response("INVALID_REQUEST", message)
}

/// Whether the conversation ends after a line and its answer.
pub fn ends_session(line: &str, response: &AgentResponse) -> (b: bool)
    ensures
        b == (response is Empty && has_sub(line@, "shutdown"@)),
{
    let l = chars_of(line);
    let word = chars_of("shutdown");
    let empty = matches!(response, AgentResponse::Empty);
    proof {
        lemma_find_sub(line@, "shutdown"@);
    }
    empty && find(l.as_slice(), word.as_slice()).is_some()
}

} // verus!
