use vento_agent_runtime::agentd::{
    agent_error, ends_session, invalid_request, kill_done, list_done, operation_done, read_done,
    read_refusal, stat_done, Agent, AgentAction, CommandOutcome, PathStatus,
};
use vento_agent_runtime::protocol::{AgentRequest, AgentResponse};
use vento_agent_runtime::table::Table;
use vento_agent_runtime::types::{CommandRequest, CommandResult};

fn command(words: &[&str], env: &[(&str, &str)], timeout_ms: u64, stdin: Option<Vec<u8>>) -> CommandRequest {
    CommandRequest {
        command: words.iter().map(|w| w.to_string()).collect(),
        cwd: "/tmp".into(),
        env: table(env),
        timeout_ms,
        stdin,
    }
}

fn table(pairs: &[(&str, &str)]) -> Table<String> {
    let mut out = Table::new();
    for (key, value) in pairs {
        out.insert(key.to_string(), value.to_string());
    }
    out
}

fn error_of(response: AgentResponse) -> (String, String) {
    match response {
        AgentResponse::Error { code, message } => (code, message),
        other => panic!("no error: {other:?}"),
    }
}

fn refusal_of(action: AgentAction) -> (String, String) {
    match action {
        AgentAction::Reply(response) => error_of(response),
        other => panic!("no refusal: {other:?}"),
    }
}

fn command_of(response: AgentResponse) -> CommandResult {
    match response {
        AgentResponse::Command(result) => result,
        other => panic!("no command: {other:?}"),
    }
}

#[test]
fn command_ids_are_unique_without_guest_entropy() {
    let mut agent = Agent::new();
    let first = agent.next_command_id(1_700_000_000_000);
    let second = agent.next_command_id(1_700_000_000_000);
    assert_ne!(first, second);
    assert!(first.starts_with("cmd_"));
    assert!(second.starts_with("cmd_"));
    assert_eq!(first, "cmd_1700000000000_0");
    assert_eq!(second, "cmd_1700000000000_1");
}

#[test]
fn readiness_reports_protocol_version_and_invalid_json_is_structured() {
    let agent = Agent::new();
    assert!(matches!(
        agent.plan(AgentRequest::Ready),
        AgentAction::Reply(AgentResponse::Ready { version: 1 })
    ));
    assert_eq!(
        error_of(invalid_request("expected value".into())),
        ("INVALID_REQUEST".to_string(), "expected value".to_string())
    );
}

#[test]
fn command_executes_with_clean_environment_and_caller_variables() {
    let mut agent = Agent::new();
    assert!(matches!(
        agent.configured(table(&[("SHARED", "base"), ("HOME", "/root")]), Ok(())),
        AgentResponse::Empty
    ));
    let words = [
        "/bin/sh",
        "-c",
        "printf '%s|%s' \"${INJECTED:-}\" \"${SHOULD_NOT_LEAK:-}\"",
    ];
    let request = command(&words, &[("INJECTED", "allowed"), ("SHARED", "own")], 2000, None);
    let plan = match agent.plan(AgentRequest::Run(request)) {
        AgentAction::Spawn(plan) => plan,
        other => panic!("not run: {other:?}"),
    };
    assert_eq!(plan.program, "/bin/sh");
    assert_eq!(plan.args, words[1..].to_vec());
    assert_eq!(plan.cwd, "/tmp");
    assert_eq!(plan.timeout_ms, 2000);
    assert_eq!(plan.env.get("INJECTED").map(String::as_str), Some("allowed"));
    assert_eq!(plan.env.get("SHOULD_NOT_LEAK"), None);
    assert_eq!(plan.env.get("SHARED").map(String::as_str), Some("own"));
    assert_eq!(plan.env.get("HOME").map(String::as_str), Some("/root"));
    assert_eq!(
        plan.env.get("PATH").map(String::as_str),
        Some("/usr/local/bin:/usr/bin:/bin")
    );
    assert_eq!(plan.env.len(), 4);
}

#[test]
fn stdin_is_delivered_and_timeout_is_reported() {
    let mut agent = Agent::new();
    let input = vec![118, 101, 110, 116, 111];
    let request = command(&["/bin/sh", "-c", "cat"], &[], 2000, Some(input.clone()));
    match agent.plan(AgentRequest::Run(request)) {
        AgentAction::Spawn(plan) => assert_eq!(plan.stdin, Some(input)),
        other => panic!("not run: {other:?}"),
    }
    let request = command(&["/bin/sh", "-c", "sleep 2"], &[], 20, None);
    match agent.plan(AgentRequest::Run(request)) {
        AgentAction::Spawn(plan) => assert_eq!(plan.timeout_ms, 20),
        other => panic!("not run: {other:?}"),
    }
    let id = agent.next_command_id(5);
    let result = command_of(agent.finished(id, CommandOutcome::TimedOut, 21));
    assert!(result.timed_out);
    assert_eq!(result.exit_code, None);
    assert_eq!(result.stderr, b"command timed out");
    assert_eq!(result.duration_ms, 21);
}

#[test]
fn output_is_capped_to_one_mebibyte_per_stream() {
    let mut agent = Agent::new();
    let outcome = CommandOutcome::Finished {
        exit_code: Some(0),
        stdout: vec![0; 1_100_000],
        stderr: b"note".to_vec(),
    };
    let id = agent.next_command_id(5);
    let result = command_of(agent.finished(id, outcome, 7));
    assert_eq!(result.stdout.len(), 1024 * 1024);
    assert_eq!(result.stderr, b"note");
    assert_eq!(result.exit_code, Some(0));
    assert!(!result.timed_out);
}

#[test]
fn filesystem_operations_reject_knowledge_writes_and_traversal() {
    let agent = Agent::new();
    let write = AgentRequest::WriteFile {
        path: "/knowledge/poison.md".into(),
        data: vec![120],
        mode: None,
    };
    assert_eq!(
        refusal_of(agent.plan(write)),
        (
            "IO_ERROR".to_string(),
            "path is outside sandbox data roots".to_string()
        )
    );
    let read = AgentRequest::ReadFile {
        path: "/workspace/../etc/passwd".into(),
        max_bytes: 1024,
    };
    assert_eq!(
        refusal_of(agent.plan(read)),
        (
            "IO_ERROR".to_string(),
            "path must be absolute and cannot contain traversal".to_string()
        )
    );
}

#[test]
fn commands_that_cannot_run_are_refused() {
    let agent = Agent::new();
    assert_eq!(
        refusal_of(agent.plan(AgentRequest::Run(command(&[], &[], 1, None)))),
        (
            "INVALID_COMMAND".to_string(),
            "command cannot be empty".to_string()
        )
    );
    let mut request = command(&["true"], &[], 1, None);
    request.cwd = "/etc".into();
    assert_eq!(
        refusal_of(agent.plan(AgentRequest::Run(request))),
        (
            "ACCESS_DENIED".to_string(),
            "path is outside sandbox data roots".to_string()
        )
    );
    for request in [
        AgentRequest::Mkdir { path: "/knowledge/x".into(), recursive: false },
        AgentRequest::Remove { path: "/knowledge/x".into(), recursive: true },
    ] {
        assert_eq!(refusal_of(agent.plan(request)).0, "ACCESS_DENIED");
    }
}

#[test]
fn running_commands_can_be_killed() {
    let mut agent = Agent::new();
    let id = agent.next_command_id(1);
    let unknown = AgentRequest::Kill { command_id: id.clone() };
    assert_eq!(
        refusal_of(agent.plan(unknown)),
        (
            "COMMAND_NOT_FOUND".to_string(),
            "command is not running".to_string()
        )
    );
    agent.started(id.clone(), 42);
    assert!(matches!(
        agent.plan(AgentRequest::Kill { command_id: id.clone() }),
        AgentAction::Kill { pid: 42 }
    ));
    let failed = CommandOutcome::Failed("no such file".into());
    let result = command_of(agent.finished(id.clone(), failed, 0));
    assert_eq!(result.command_id, id);
    assert_eq!(result.stderr, b"no such file");
    assert_eq!(agent.running.len(), 0);
    assert!(matches!(kill_done(Ok(())), AgentResponse::Empty));
    assert_eq!(error_of(kill_done(Err("gone".into()))).0, "KILL_FAILED");
}

#[test]
fn plain_requests_become_actions() {
    let agent = Agent::new();
    assert!(matches!(agent.plan(AgentRequest::Sync), AgentAction::Sync));
    assert!(matches!(
        agent.plan(AgentRequest::Shutdown),
        AgentAction::Reply(AgentResponse::Empty)
    ));
    assert!(matches!(
        agent.plan(AgentRequest::Configure { env: table(&[]), max_processes: 7 }),
        AgentAction::Configure { max_processes: 7, .. }
    ));
    assert!(matches!(
        agent.plan(AgentRequest::ListDir { path: "/knowledge".into() }),
        AgentAction::ListDir { .. }
    ));
    assert!(matches!(
        agent.plan(AgentRequest::Stat { path: "/tmp/a".into() }),
        AgentAction::Stat { .. }
    ));
    assert!(matches!(
        agent.plan(AgentRequest::Remove { path: "/tmp/a".into(), recursive: true }),
        AgentAction::Remove { recursive: true, .. }
    ));
}

#[test]
fn a_refused_limit_leaves_the_variables_alone() {
    let mut agent = Agent::new();
    let response = agent.configured(table(&[("A", "1")]), Err("not permitted".into()));
    assert_eq!(
        error_of(response),
        ("RESOURCE_LIMIT".to_string(), "not permitted".to_string())
    );
    assert_eq!(agent.base_env.len(), 0);
}

#[test]
fn files_are_read_up_to_the_limit() {
    assert!(read_refusal(10, 10).is_none());
    let refusal = read_refusal(11, 10).expect("too large");
    assert_eq!(
        error_of(refusal),
        ("IO_ERROR".to_string(), "file exceeds read limit".to_string())
    );
    assert!(matches!(read_done(Ok(vec![1])), AgentResponse::Bytes(b) if b == vec![1]));
    assert_eq!(error_of(read_done(Err("lost".into()))).1, "lost");
    assert!(matches!(operation_done(Ok(())), AgentResponse::Empty));
    assert_eq!(error_of(agent_error("x".into())).0, "IO_ERROR");
}

#[test]
fn listings_describe_every_child() {
    let child = |path: &str, is_dir: bool| PathStatus {
        path: path.into(),
        is_dir,
        size: 3,
        now: 9,
    };
    match list_done(vec![child("/tmp/a", true), child("/tmp/b", false)], None) {
        AgentResponse::Entries(entries) => {
            assert_eq!(entries.len(), 2);
            assert_eq!(entries[0].kind, "directory");
            assert_eq!(entries[1].kind, "file");
            assert_eq!(entries[1].path, "/tmp/b");
            assert_eq!(entries[1].modified_at_ms, 9);
        }
        other => panic!("no listing: {other:?}"),
    }
    let refused = list_done(vec![child("/etc", true)], Some("late".into()));
    assert_eq!(error_of(refused).1, "path is outside sandbox data roots");
    let ended = list_done(vec![child("/tmp/a", true)], Some("late".into()));
    assert_eq!(error_of(ended).1, "late");
    match stat_done(Ok(child("/tmp/a", false))) {
        AgentResponse::Entry(entry) => assert_eq!(entry.size, 3),
        other => panic!("no entry: {other:?}"),
    }
}

#[test]
fn shutdown_ends_the_session() {
    let line = "{\"method\":\"shutdown\"}";
    assert!(ends_session(line, &AgentResponse::Empty));
    assert!(!ends_session("{\"method\":\"sync\"}", &AgentResponse::Empty));
    assert!(!ends_session(line, &AgentResponse::Ready { version: 1 }));
}
