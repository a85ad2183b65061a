//! What the agent inside a sandbox may touch, what its commands see, and how the services
//! around it answer.

use crate::agentd::{
    begins, command_env, ends, is_configured, law_command_ids_are_distinct, leads_to, listing_error,
    reports, takes_number, Agent, AgentAction, CommandOutcome, PathStatus,
};
use crate::protocol::{path_error, AgentRequest, AgentResponse};
use crate::server::request_url;
use crate::table::{text_map, Table};
use crate::text::{has_sub, lemma_until, split, starts_with, trim_end_char, until};
use crate::types::{limits_error, may_become, CommandRequest, CommandResult, ResourceLimits, SandboxState};
use crate::vm::error::{error_code, error_status, RuntimeErrorView};
use vstd::prelude::*;
use vstd::utf8::encode_utf8;

verus! {

// ---------------------------------------------------------------------------
// Paths
// ---------------------------------------------------------------------------
/// Two dots stand alone between slashes, or before the end.
pub open spec fn goes_up_at(path: Seq<char>, i: int) -> bool {
    &&& 0 <= i
    &&& i + 2 <= path.len()
    &&& path[i] == '.'
    &&& path[i + 1] == '.'
    &&& i == 0 || path[i - 1] == '/'
    &&& i + 2 == path.len() || path[i + 2] == '/'
}

/// The directory itself, or something below it.
pub open spec fn lies_in(path: Seq<char>, root: Seq<char>) -> bool {
    &&& starts_with(path, root)
    &&& path.len() == root.len() || path[root.len() as int] == '/'
}

/// A path that the agent may touch: absolute, without a way up or a null character, in the
/// workspace, in the temporary directory or, to read, in the knowledge.
pub open spec fn may_touch(path: Seq<char>, writable: bool) -> bool {
    &&& path.len() > 0
    &&& path[0] == '/'
    &&& forall|i: int| 0 <= i < path.len() ==> #[trigger] path[i] != '\0'
    &&& forall|i: int| !(#[trigger] goes_up_at(path, i))
    &&& lies_in(path, "/workspace"@) || lies_in(path, "/tmp"@) || (!writable && lies_in(
        path,
        "/knowledge"@,
    ))
}

proof fn lemma_goes_up(s: Seq<char>)
    ensures
        split(s, '/').contains(".."@) <==> exists|i: int| #[trigger] goes_up_at(s, i),
    decreases s.len(),
{
    reveal_strlit("..");
    let n = until(s, '/') as int;
    lemma_until(s, '/');
    let parts = split(s, '/');
    if n >= s.len() {
        if parts.contains(".."@) {
            assert(parts[0] == ".."@);
            assert(goes_up_at(s, 0));
        }
        if exists|i: int| #[trigger] goes_up_at(s, i) {
            let i = choose|i: int| #[trigger] goes_up_at(s, i);
            if i > 0 {
                assert(s[i - 1] != '/');
            }
            if i + 2 < s.len() {
                assert(s[i + 2] != '/');
            }
            assert(s =~= ".."@);
            assert(parts[0] == ".."@);
        }
    } else {
        let head = s.take(n);
        let rest = s.skip(n + 1);
        lemma_goes_up(rest);
        let more = split(rest, '/');
        assert(parts == seq![head] + more);
        if parts.contains(".."@) {
            let k = choose|k: int| 0 <= k < parts.len() && parts[k] == ".."@;
            if k == 0 {
                assert(head == ".."@);
                assert(s[0] == head[0] && s[1] == head[1]);
                assert(goes_up_at(s, 0));
            } else {
                assert(more[k - 1] == ".."@);
                let i = choose|i: int| #[trigger] goes_up_at(rest, i);
                assert(rest[i] == s[i + n + 1] && rest[i + 1] == s[i + n + 2]);
                if i > 0 {
                    assert(rest[i - 1] == s[i + n]);
                }
                if i + 2 < rest.len() {
                    assert(rest[i + 2] == s[i + n + 3]);
                }
                assert(goes_up_at(s, i + n + 1));
            }
        }
        if exists|i: int| #[trigger] goes_up_at(s, i) {
            let i = choose|i: int| #[trigger] goes_up_at(s, i);
            if i < n {
                if i > 0 {
                    assert(s[i - 1] != '/');
                }
                assert(s[n] == '/');
                if i + 2 < n {
                    assert(s[i + 2] != '/');
                }
                assert(i == 0 && n == 2);
                assert(head =~= ".."@);
                assert(parts[0] == ".."@);
            } else {
                let j = i - n - 1;
                if i == n {
                    assert(s[n] == '/');
                }
                assert(rest[j] == s[i] && rest[j + 1] == s[i + 1]);
                if j > 0 {
                    assert(rest[j - 1] == s[i - 1]);
                }
                if j + 2 < rest.len() {
                    assert(rest[j + 2] == s[i + 2]);
                }
                assert(goes_up_at(rest, j));
                let k = choose|k: int| 0 <= k < more.len() && more[k] == ".."@;
                assert(parts[k + 1] == ".."@);
            }
        }
    }
}

proof fn lemma_lies_in(path: Seq<char>, root: Seq<char>)
    ensures
        crate::protocol::within(path, root) <==> lies_in(path, root),
{
    let r = root.push('/');
    if starts_with(path, r) {
        assert(path.subrange(0, r.len() as int)[root.len() as int] == '/');
        assert(path.subrange(0, root.len() as int) =~= r.take(root.len() as int));
        assert(r.take(root.len() as int) =~= root);
    }
    if lies_in(path, root) {
        if path.len() == root.len() {
            assert(path =~= path.subrange(0, root.len() as int));
        } else {
            assert(path.subrange(0, r.len() as int) =~= path.subrange(0, root.len() as int).push(
                path[root.len() as int],
            ));
        }
    }
    if path == root {
        assert(path.subrange(0, root.len() as int) =~= root);
    }
}

/// Exactly the paths that may be touched are let through.
pub proof fn law_paths_stay_in_their_roots(path: Seq<char>, writable: bool)
    ensures
        path_error(path, writable) is None <==> may_touch(path, writable),
{
    lemma_goes_up(path);
    lemma_lies_in(path, "/workspace"@);
    lemma_lies_in(path, "/tmp"@);
    lemma_lies_in(path, "/knowledge"@);
    if path.contains('\0') {
        let i = choose|i: int| 0 <= i < path.len() && path[i] == '\0';
        assert(path[i] == '\0');
    }
    if !(forall|i: int| 0 <= i < path.len() ==> #[trigger] path[i] != '\0') {
        let i = choose|i: int| 0 <= i < path.len() && #[trigger] path[i] == '\0';
        assert(path.contains('\0'));
    }
}

/// The agent touches a file only where it may, to write only where it may write, and as it
/// was asked to; anything else is answered with an error.
pub proof fn law_files_are_touched_as_asked(agent: Agent, request: AgentRequest, a: AgentAction)
    requires
        leads_to(agent, request, a),
    ensures
        match request {
            AgentRequest::ReadFile { path, max_bytes } => if may_touch(path@, false) {
                a == AgentAction::ReadFile { path, max_bytes }
            } else {
                is_refusal(a)
            },
            AgentRequest::WriteFile { path, data, mode } => if may_touch(path@, true) {
                a == AgentAction::WriteFile { path, data }
            } else {
                is_refusal(a)
            },
            AgentRequest::ListDir { path } => if may_touch(path@, false) {
                a == AgentAction::ListDir { path }
            } else {
                is_refusal(a)
            },
            AgentRequest::Stat { path } => if may_touch(path@, false) {
                a == AgentAction::Stat { path }
            } else {
                is_refusal(a)
            },
            AgentRequest::Mkdir { path, recursive } => if may_touch(path@, true) {
                a == AgentAction::Mkdir { path }
            } else {
                is_refusal(a)
            },
            AgentRequest::Remove { path, recursive } => if may_touch(path@, true) {
                a == AgentAction::Remove { path, recursive }
            } else {
                is_refusal(a)
            },
            AgentRequest::Run(command) => if command.command@.len() > 0 && may_touch(
                command.cwd@,
                false,
            ) {
                a is Spawn
            } else {
                is_refusal(a)
            },
            _ => true,
        },
{
    match request {
        AgentRequest::ReadFile { path, max_bytes } => {
            law_paths_stay_in_their_roots(path@, false);
        },
        AgentRequest::WriteFile { path, data, mode } => {
            law_paths_stay_in_their_roots(path@, true);
        },
        AgentRequest::ListDir { path } => {
            law_paths_stay_in_their_roots(path@, false);
        },
        AgentRequest::Stat { path } => {
            law_paths_stay_in_their_roots(path@, false);
        },
        AgentRequest::Mkdir { path, recursive } => {
            law_paths_stay_in_their_roots(path@, true);
        },
        AgentRequest::Remove { path, recursive } => {
            law_paths_stay_in_their_roots(path@, true);
        },
        AgentRequest::Run(command) => {
            law_paths_stay_in_their_roots(command.cwd@, false);
        },
        _ => {},
    }
}

/// The request is answered with an error.
pub open spec fn is_refusal(a: AgentAction) -> bool {
    a matches AgentAction::Reply(r) && r is Error
}

/// A listing is refused where one of its entries may not be read, and only then.
pub proof fn law_listings_stay_in_their_roots(children: Seq<PathStatus>)
    ensures
        listing_error(children) is None <==> forall|i: int|
            0 <= i < children.len() ==> may_touch((#[trigger] children[i]).path@, false),
    decreases children.len(),
{
    if children.len() > 0 {
        let front = children.drop_last();
        let n = children.len() - 1;
        law_listings_stay_in_their_roots(front);
        law_paths_stay_in_their_roots(children[n].path@, false);
        if listing_error(children) is None {
            assert forall|i: int| 0 <= i < children.len() implies may_touch(
                (#[trigger] children[i]).path@,
                false,
            ) by {
                if i < n {
                    assert(front[i] == children[i]);
                }
            }
        } else if listing_error(front) is Some {
            let i = choose|i: int|
                0 <= i < front.len() && !may_touch((#[trigger] front[i]).path@, false);
            assert(front[i] == children[i]);
        }
    }
}

// ---------------------------------------------------------------------------
// Commands
// ---------------------------------------------------------------------------
/// A variable of a command's environment: its own, else one that the agent was configured
/// with, else one of the two that every command has.
pub open spec fn sees(
    own: Map<Seq<char>, Seq<char>>,
    base: Map<Seq<char>, Seq<char>>,
    name: Seq<char>,
) -> Option<Seq<char>> {
    if own.dom().contains(name) {
        Some(own[name])
    } else if base.dom().contains(name) {
        Some(base[name])
    } else if name == "PATH"@ {
        Some("/usr/local/bin:/usr/bin:/bin"@)
    } else if name == "HOME"@ {
        Some("/home"@)
    } else {
        None
    }
}

/// A command is started with its words as it came, in its directory, with its input and its
/// time, and sees its own variables before those that the agent was configured with.
pub proof fn law_commands_start_as_asked(
    before: Agent,
    env: Table<String>,
    agent: Agent,
    r: AgentResponse,
    command: CommandRequest,
    a: AgentAction,
    name: Seq<char>,
)
    requires
        is_configured(before, env, Ok(()), agent, r),
        leads_to(agent, AgentRequest::Run(command), a),
        a is Spawn,
    ensures
        ({
            let plan = a->Spawn_0;
            &&& seq![plan.program] + plan.args@ == command.command@
            &&& plan.cwd == command.cwd
            &&& plan.stdin == command.stdin
            &&& plan.timeout_ms == command.timeout_ms
            &&& ({
                let all = text_map(plan.env@);
                let value = sees(text_map(command.env@), text_map(env@), name);
                &&& all.dom().contains(name) <==> value is Some
                &&& value is Some ==> all[name] == value->0
            })
        }),
{
    let plan = a->Spawn_0;
    assert(seq![plan.program] + plan.args@ =~= command.command@);
    reveal_strlit("PATH");
    reveal_strlit("HOME");
    assert("PATH"@[0] != "HOME"@[0]);
    assert(text_map(plan.env@) == command_env(text_map(env@), text_map(command.env@)));
}

/// Configuring keeps what runs; if the limit could not be set, it keeps the variables too
/// and says why.
pub proof fn law_configuring_keeps_what_runs(
    before: Agent,
    env: Table<String>,
    outcome: Result<(), String>,
    after: Agent,
    r: AgentResponse,
)
    requires
        is_configured(before, env, outcome, after, r),
    ensures
        after.running@ == before.running@,
        after.sequence == before.sequence,
        outcome is Ok <==> r is Empty,
        outcome matches Err(why) ==> after.base_env@ == before.base_env@ && (
        r matches AgentResponse::Error { code, message } && message@ == why@),
{
}

/// A command can be killed by its identifier from its start to its end, whatever else runs,
/// and not afterwards.
pub proof fn law_running_commands_can_be_killed(
    before: Agent,
    id: String,
    pid: u32,
    between: Agent,
    other: String,
    outcome: CommandOutcome,
    duration_ms: u64,
    after: Agent,
    r: AgentResponse,
    a: AgentAction,
    b: AgentAction,
)
    requires
        begins(before, id@, pid, between),
        ends(between, other@, outcome, duration_ms, after, r),
        leads_to(between, AgentRequest::Kill { command_id: id }, a),
        leads_to(after, AgentRequest::Kill { command_id: id }, b),
    ensures
        a == (AgentAction::Kill { pid }),
        id@ != other@ ==> b == (AgentAction::Kill { pid }),
        id@ == other@ ==> is_refusal(b),
        forall|more: Seq<char>|
            more != id@ && more != other@ && #[trigger] before.running@.dom().contains(more)
                ==> after.running@.dom().contains(more) && after.running@[more]
                == before.running@[more],
{
}

/// A report names its command and its time. Of a command that ended it has the exit code and
/// the beginning of what it wrote, up to a mebibyte each; a command that ran out of time or
/// could not be run has no exit code and says so.
pub proof fn law_reports_tell_what_happened(
    c: CommandResult,
    id: Seq<char>,
    outcome: CommandOutcome,
    duration_ms: u64,
)
    requires
        reports(c, id, outcome, duration_ms),
    ensures
        c.command_id@ == id,
        c.duration_ms == duration_ms,
        c.timed_out <==> outcome is TimedOut,
        match outcome {
            CommandOutcome::Finished { exit_code, stdout, stderr } => {
                &&& c.exit_code == exit_code
                &&& c.stdout@ == stdout@.take(c.stdout@.len() as int)
                &&& c.stdout@.len() == stdout@.len() || c.stdout@.len() == 1_048_576
                    < stdout@.len()
                &&& c.stderr@ == stderr@.take(c.stderr@.len() as int)
                &&& c.stderr@.len() == stderr@.len() || c.stderr@.len() == 1_048_576
                    < stderr@.len()
            },
            CommandOutcome::Failed(why) => {
                &&& c.exit_code is None
                &&& c.stdout@.len() == 0
                &&& c.stderr@ == encode_utf8(why@)
            },
            CommandOutcome::TimedOut => {
                &&& c.exit_code is None
                &&& c.stdout@.len() == 0
                &&& c.stderr@ == encode_utf8("command timed out"@)
            },
        },
{
    if let CommandOutcome::Finished { exit_code, stdout, stderr } = outcome {
        assert(stdout@.take(stdout@.len() as int) =~= stdout@);
        assert(stderr@.take(stderr@.len() as int) =~= stderr@);
    }
}

/// Two commands in a row have different identifiers, whatever the clock says.
pub proof fn law_commands_are_told_apart(
    before: Agent,
    now: u64,
    between: Agent,
    first: Seq<char>,
    later: u64,
    after: Agent,
    second: Seq<char>,
)
    requires
        takes_number(before, now, between, first),
        takes_number(between, later, after, second),
    ensures
        first != second,
        after.running@ == before.running@,
        after.base_env@ == before.base_env@,
{
    law_command_ids_are_distinct(now, before.sequence, later, between.sequence);
}

// ---------------------------------------------------------------------------
// States and limits
// ---------------------------------------------------------------------------
/// Where a state can come from: nothing becomes new again, a sandbox runs after it was
/// made, paused or stopped, pauses while it runs, stops while it runs or is paused, fails
/// unless it has failed or is gone, and can always be destroyed.
pub proof fn law_states_follow_each_other(from: SandboxState, to: SandboxState)
    ensures
        may_become(from, from),
        from != to ==> (may_become(from, to) <==> match to {
            SandboxState::Creating => false,
            SandboxState::Running => from is Creating || from is Paused || from is Stopped,
            SandboxState::Paused => from is Running,
            SandboxState::Stopped => from is Running || from is Paused,
            SandboxState::Failed => !(from is Destroyed),
            SandboxState::Destroyed => true,
        }),
{
}

/// The limits that are accepted.
pub proof fn law_limits_are_bounded(limits: ResourceLimits)
    ensures
        limits_error(limits) is None <==> {
            &&& 0 < limits.cpu_count < 33
            &&& 127 < limits.memory_mb < 131_073
            &&& 255 < limits.disk_mb < 1_048_577
            &&& 0 < limits.max_processes < 32_769
        },
{
}

// ---------------------------------------------------------------------------
// Services
// ---------------------------------------------------------------------------
/// What the caller did wrong is answered as such, and nothing else is; a missing sandbox and
/// an invalid request have answers of their own, and different errors have different codes.
pub proof fn law_errors_are_told_apart(a: RuntimeErrorView, b: RuntimeErrorView)
    ensures
        a is Backend <==> error_status(a) == 500,
        !(a is Backend) ==> 400 <= error_status(a) < 500,
        a is NotFound <==> error_status(a) == 404,
        a is Invalid <==> error_status(a) == 400,
        error_code(a) == error_code(b) ==> error_status(a) == error_status(b),
        (a is NotFound) != (b is NotFound) ==> error_code(a) != error_code(b),
        (a is Conflict) != (b is Conflict) ==> error_code(a) != error_code(b),
        (a is Invalid) != (b is Invalid) ==> error_code(a) != error_code(b),
        (a is Backend) != (b is Backend) ==> error_code(a) != error_code(b),
{
    reveal_strlit("SANDBOX_NOT_FOUND");
    reveal_strlit("STATE_CONFLICT");
    reveal_strlit("INVALID_INPUT");
    reveal_strlit("SECRETS_CANNOT_BE_SNAPSHOTTED");
    reveal_strlit("BACKEND_ERROR");
    assert("SANDBOX_NOT_FOUND"@.len() == 17 && "STATE_CONFLICT"@.len() == 14
        && "INVALID_INPUT"@.len() == 13 && "SECRETS_CANNOT_BE_SNAPSHOTTED"@.len() == 29
        && "BACKEND_ERROR"@.len() == 13);
    assert("INVALID_INPUT"@[0] != "BACKEND_ERROR"@[0]);
}

proof fn lemma_slashes(base: Seq<char>)
    ensures
        ({
            let t = trim_end_char(base, '/');
            &&& t.len() <= base.len()
            &&& t == base.take(t.len() as int)
            &&& t.len() > 0 ==> t.last() != '/'
            &&& forall|i: int| t.len() <= i < base.len() ==> #[trigger] base[i] == '/'
        }),
    decreases base.len(),
{
    let t = trim_end_char(base, '/');
    if base.len() > 0 && base.last() == '/' {
        let front = base.drop_last();
        lemma_slashes(front);
        assert(t =~= base.take(t.len() as int));
        assert forall|i: int| t.len() <= i < base.len() implies #[trigger] base[i] == '/' by {
            if i < front.len() {
                assert(front[i] == base[i]);
            }
        }
    } else {
        assert(t =~= base.take(t.len() as int));
    }
}

/// A request goes to the path behind the base, with one slash in between however many the
/// base ends in, and only where the path is absolute and has no way up.
pub proof fn law_requests_stay_below_the_base(base: Seq<char>, path: Seq<char>)
    ensures
        request_url(base, path) is Some <==> path.len() > 0 && path[0] == '/' && !has_sub(
            path,
            ".."@,
        ),
        request_url(base, path) matches Some(url) ==> {
            let n = url.len() - path.len();
            &&& 0 <= n <= base.len()
            &&& url == base.take(n) + path
            &&& n > 0 ==> url[n - 1] != '/'
            &&& forall|i: int| n <= i < base.len() ==> #[trigger] base[i] == '/'
        },
{
    lemma_slashes(base);
}

} // verus!
