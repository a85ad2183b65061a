use std::collections::BTreeSet;
use std::sync::atomic::{AtomicUsize, Ordering};
use std::sync::{Arc, Mutex};

use vento_agent_runtime::table::Table;
use vento_agent_runtime::types::{
    CommandRequest, CommandResult, CreateSandboxRequest, FileEntry, IdleAction, SandboxState,
};
use vento_agent_runtime::vm::backend::{BackendSnapshot, SandboxBackend, SandboxBackendFactory};
use vento_agent_runtime::vm::control::ControlPlane;
use vento_agent_runtime::vm::error::RuntimeError;
use vento_agent_runtime::vm::memory::InMemoryBackendFactory;
use vento_agent_runtime::vm::restart::{kept_request, needs_checkpoint, restart_state};
use vento_agent_runtime::vm::runtime::VmRuntime;

fn runtime() -> VmRuntime<InMemoryBackendFactory> {
    VmRuntime::new(InMemoryBackendFactory)
}

fn command() -> CommandRequest {
    CommandRequest {
        command: vec!["true".into()],
        cwd: "/workspace".into(),
        env: Table::new(),
        timeout_ms: 1_000,
        stdin: None,
    }
}

fn secret_request(value: &str) -> CreateSandboxRequest {
    let mut request = CreateSandboxRequest::default();
    request.secrets.insert("TOKEN".into(), value.into());
    request
}

#[test]
fn lifecycle_and_file_isolation() {
    let mut runtime = runtime();
    let first = runtime
        .create(CreateSandboxRequest::default(), Some("one"))
        .expect("create");
    let second = runtime
        .create(CreateSandboxRequest::default(), Some("two"))
        .expect("create");
    runtime
        .write_file(&first.sandbox_id, "/workspace/a.txt", b"secret")
        .expect("write");
    assert!(runtime
        .read_file(&second.sandbox_id, "/workspace/a.txt", 100)
        .is_err());
    assert_eq!(
        runtime.pause(&first.sandbox_id).expect("pause").state,
        SandboxState::Paused
    );
    assert_eq!(
        runtime.resume(&first.sandbox_id).expect("resume").state,
        SandboxState::Running
    );
}

#[test]
fn secrets_block_snapshot_and_idle_pause_destroys() {
    let mut runtime = runtime();
    let sandbox = runtime
        .create(secret_request("redacted"), None)
        .expect("create");
    assert!(matches!(
        runtime.create_snapshot(&sandbox.sandbox_id),
        Err(RuntimeError::SecretsCannotBeSnapshotted)
    ));
    runtime.reap_idle(u64::MAX);
    assert!(runtime.get(&sandbox.sandbox_id).is_err());
}

#[test]
fn idempotency_returns_same_sandbox() {
    let mut runtime = runtime();
    let first = runtime
        .create(CreateSandboxRequest::default(), Some("key"))
        .expect("create");
    let second = runtime
        .create(CreateSandboxRequest::default(), Some("key"))
        .expect("repeat");
    assert_eq!(first.sandbox_id, second.sandbox_id);
}

#[test]
fn concurrent_idempotent_creates_publish_exactly_one_sandbox() {
    let creations = Arc::new(AtomicUsize::new(0));
    let shared = Arc::new(Mutex::new(VmRuntime::new(SlowFactory(creations.clone()))));
    let executor = tokio::runtime::Builder::new_multi_thread()
        .worker_threads(4)
        .build()
        .unwrap();
    let mut tasks = Vec::new();
    for _ in 0..32 {
        let shared = shared.clone();
        tasks.push(executor.spawn(async move {
            shared
                .lock()
                .unwrap()
                .create(CreateSandboxRequest::default(), Some("retry-key"))
                .unwrap()
        }));
    }
    let mut ids = BTreeSet::new();
    for task in tasks {
        ids.insert(executor.block_on(task).unwrap().sandbox_id);
    }
    assert_eq!(ids.len(), 1);
    assert_eq!(shared.lock().unwrap().list().len(), 1);
    assert_eq!(creations.load(Ordering::SeqCst), 1);
}

#[test]
fn keys_outlast_other_operations_but_not_a_destroy() {
    let mut runtime = runtime();
    let first = runtime
        .create(CreateSandboxRequest::default(), Some("key"))
        .unwrap();
    let other = runtime
        .create(CreateSandboxRequest::default(), Some("other"))
        .unwrap();
    runtime.pause(&first.sandbox_id).unwrap();
    runtime.destroy(&other.sandbox_id).unwrap();
    let again = runtime
        .create(CreateSandboxRequest::default(), Some("key"))
        .unwrap();
    assert_eq!(again.sandbox_id, first.sandbox_id);
    assert_eq!(again.state, SandboxState::Paused);
    runtime.destroy(&first.sandbox_id).unwrap();
    assert!(runtime.destroy(&first.sandbox_id).is_err());
    assert!(runtime.list().is_empty());
    let fresh = runtime
        .create(CreateSandboxRequest::default(), Some("key"))
        .unwrap();
    assert_ne!(fresh.sandbox_id, first.sandbox_id);
    assert_eq!(runtime.list().len(), 1);
}

#[test]
fn blank_idempotency_keys_do_not_alias_unrelated_requests() {
    let mut runtime = runtime();
    let first = runtime
        .create(CreateSandboxRequest::default(), Some(" "))
        .unwrap();
    let second = runtime
        .create(CreateSandboxRequest::default(), Some(" "))
        .unwrap();
    assert_ne!(first.sandbox_id, second.sandbox_id);
}

#[test]
fn lifecycle_rejects_operations_in_incompatible_states() {
    let mut runtime = runtime();
    let sandbox = runtime
        .create(CreateSandboxRequest::default(), None)
        .unwrap();
    runtime.stop(&sandbox.sandbox_id).unwrap();
    assert!(matches!(
        runtime.pause(&sandbox.sandbox_id),
        Err(RuntimeError::Conflict(_))
    ));
    assert!(matches!(
        runtime.run_command(&sandbox.sandbox_id, command()),
        Err(RuntimeError::Conflict(_))
    ));
    assert_eq!(
        runtime.start(&sandbox.sandbox_id).unwrap().state,
        SandboxState::Running
    );
}

#[test]
fn command_and_resource_limits_are_enforced_before_backend_dispatch() {
    let mut runtime = runtime();
    let sandbox = runtime
        .create(CreateSandboxRequest::default(), None)
        .unwrap();
    let mut empty = command();
    empty.command.clear();
    assert!(matches!(
        runtime.run_command(&sandbox.sandbox_id, empty),
        Err(RuntimeError::Invalid(_))
    ));
    let mut excessive = command();
    excessive.timeout_ms = 3_600_001;
    assert!(matches!(
        runtime.run_command(&sandbox.sandbox_id, excessive),
        Err(RuntimeError::Invalid(_))
    ));

    let mut invalid = CreateSandboxRequest::default();
    invalid.resources.memory_mb = 64;
    assert!(matches!(
        runtime.create(invalid, None),
        Err(RuntimeError::Invalid(_))
    ));
}

#[test]
fn file_roots_and_knowledge_read_only_policy_are_enforced() {
    let mut runtime = runtime();
    let sandbox = runtime
        .create(CreateSandboxRequest::default(), None)
        .unwrap();
    for path in [
        "relative",
        "/workspace/../etc/passwd",
        "/etc/passwd",
        "/knowledge/a.md",
    ] {
        assert!(
            matches!(
                runtime.write_file(&sandbox.sandbox_id, path, b"x"),
                Err(RuntimeError::Invalid(_))
            ),
            "accepted {path}"
        );
    }
    runtime
        .write_file(&sandbox.sandbox_id, "/workspace/a", b"one")
        .unwrap();
    assert_eq!(
        runtime
            .read_file(&sandbox.sandbox_id, "/workspace/a", 3)
            .unwrap(),
        b"one"
    );
    assert!(runtime
        .read_file(&sandbox.sandbox_id, "/workspace/a", 2)
        .is_err());
}

#[test]
fn idle_policy_pauses_plain_sandbox_but_destroys_secret_sandbox() {
    let mut runtime = runtime();
    let plain = runtime
        .create(CreateSandboxRequest::default(), None)
        .unwrap();
    let mut request = secret_request("never-log-this");
    request.idle_action = IdleAction::Pause;
    let secret = runtime.create(request, None).unwrap();
    runtime.reap_idle(u64::MAX);
    assert_eq!(
        runtime.get(&plain.sandbox_id).unwrap().state,
        SandboxState::Paused
    );
    assert!(matches!(
        runtime.get(&secret.sandbox_id),
        Err(RuntimeError::NotFound)
    ));
}

#[test]
fn secret_sandbox_cannot_enter_pause_or_snapshot_paths() {
    let mut runtime = runtime();
    let sandbox = runtime
        .create(secret_request("never-log-this"), None)
        .unwrap();
    assert!(matches!(
        runtime.pause(&sandbox.sandbox_id),
        Err(RuntimeError::SecretsCannotBeSnapshotted)
    ));
    assert!(matches!(
        runtime.create_snapshot(&sandbox.sandbox_id),
        Err(RuntimeError::SecretsCannotBeSnapshotted)
    ));
}

#[test]
fn sandbox_files_are_isolated_and_destroy_removes_access() {
    let mut runtime = runtime();
    let first = runtime
        .create(CreateSandboxRequest::default(), None)
        .unwrap();
    let second = runtime
        .create(CreateSandboxRequest::default(), None)
        .unwrap();
    runtime
        .write_file(&first.sandbox_id, "/workspace/private", b"first")
        .unwrap();
    assert!(runtime
        .read_file(&second.sandbox_id, "/workspace/private", 100)
        .is_err());
    runtime.destroy(&first.sandbox_id).unwrap();
    assert!(matches!(
        runtime.get(&first.sandbox_id),
        Err(RuntimeError::NotFound)
    ));
}

#[test]
fn a_new_sandbox_is_described() {
    let mut runtime = runtime();
    let mut request = CreateSandboxRequest::default();
    request.session_id = Some("mine".into());
    request.timeout_seconds = 60;
    let info = runtime.create(request, None).unwrap();
    assert_eq!(info.session_id, "mine");
    assert_eq!(info.state, SandboxState::Running);
    assert_eq!(info.expires_at_ms, info.created_at_ms + 60_000);
    assert!(info.sandbox_id.starts_with("sbx_"));
    assert!(!info.has_secrets);
    assert_eq!(info.failure_reason, None);
}

#[test]
fn timeouts_have_a_range() {
    let mut runtime = runtime();
    for seconds in [0, 86_401] {
        let mut request = CreateSandboxRequest::default();
        request.timeout_seconds = seconds;
        match runtime.create(request, None) {
            Err(error) => {
                assert_eq!(error.code(), "INVALID_INPUT");
                assert_eq!(error.message(), "timeoutSeconds must be 1..=86400");
            }
            Ok(_) => panic!("accepted {seconds}"),
        }
    }
}

#[test]
fn commands_echo_and_files_list() {
    let mut runtime = runtime();
    let id = runtime
        .create(CreateSandboxRequest::default(), None)
        .unwrap()
        .sandbox_id;
    let mut request = command();
    request.command = vec!["echo".into(), "héllo".into()];
    let result = runtime.run_command(&id, request).unwrap();
    assert_eq!(result.stdout, "echo héllo".as_bytes());
    assert_eq!(result.exit_code, Some(0));
    assert!(runtime.kill_command(&id, &result.command_id).is_ok());
    runtime.write_file(&id, "/workspace/a", b"12").unwrap();
    runtime.write_file(&id, "/tmp/b", b"345").unwrap();
    let entries = runtime.list_dir(&id, "/workspace").unwrap();
    assert_eq!(entries.len(), 1);
    assert_eq!(entries[0].path, "/workspace/a");
    assert_eq!(entries[0].size, 2);
    assert_eq!(entries[0].kind, "file");
    let snapshot = runtime.create_snapshot(&id).unwrap();
    assert_eq!(snapshot.size_bytes, 5);
    assert_eq!(snapshot.manifest_version, 1);
    assert_eq!(snapshot.source_sandbox_id, id);
    assert_eq!(
        runtime.get_snapshot(&snapshot.snapshot_id).unwrap().size_bytes,
        5
    );
    runtime.delete_snapshot(&snapshot.snapshot_id).unwrap();
    assert!(matches!(
        runtime.get_snapshot(&snapshot.snapshot_id),
        Err(RuntimeError::NotFound)
    ));
    assert!(matches!(
        runtime.delete_snapshot(&snapshot.snapshot_id),
        Err(RuntimeError::NotFound)
    ));
    runtime.remove(&id, "/workspace/a", false).unwrap();
    assert!(matches!(
        runtime.read_file(&id, "/workspace/a", 10),
        Err(RuntimeError::NotFound)
    ));
    assert_eq!(runtime.read_file(&id, "/tmp/b", 10).unwrap(), b"345");
}

#[test]
fn errors_have_codes_words_and_statuses() {
    let mut runtime = runtime();
    let missing = runtime.start("sbx_none").unwrap_err();
    assert_eq!(missing.code(), "SANDBOX_NOT_FOUND");
    assert_eq!(missing.message(), "sandbox was not found");
    assert_eq!(missing.status(), 404);
    let id = runtime
        .create(CreateSandboxRequest::default(), None)
        .unwrap()
        .sandbox_id;
    runtime.pause(&id).unwrap();
    let conflict = runtime.read_file(&id, "/tmp/a", 1).unwrap_err();
    assert_eq!(conflict.code(), "STATE_CONFLICT");
    assert_eq!(
        conflict.message(),
        "operation is not allowed while sandbox is Paused"
    );
    assert_eq!(conflict.status(), 409);
    let secrets = RuntimeError::SecretsCannotBeSnapshotted;
    assert_eq!(secrets.code(), "SECRETS_CANNOT_BE_SNAPSHOTTED");
    assert_eq!(secrets.status(), 409);
    let backend = RuntimeError::Backend("broken".into());
    assert_eq!((backend.code(), backend.status()), ("BACKEND_ERROR", 500));
}

#[test]
fn a_key_is_free_again_once_its_sandbox_is_gone() {
    let mut runtime = runtime();
    let first = runtime
        .create(CreateSandboxRequest::default(), Some("key"))
        .unwrap();
    runtime.destroy(&first.sandbox_id).unwrap();
    let second = runtime
        .create(CreateSandboxRequest::default(), Some("key"))
        .unwrap();
    assert_ne!(first.sandbox_id, second.sandbox_id);
    assert_eq!(runtime.list().len(), 1);
}

#[test]
fn sandboxes_are_listed_by_age() {
    let mut runtime = runtime();
    for _ in 0..5 {
        runtime
            .create(CreateSandboxRequest::default(), None)
            .unwrap();
    }
    let all = runtime.list();
    assert_eq!(all.len(), 5);
    for pair in all.windows(2) {
        assert!(pair[0].created_at_ms <= pair[1].created_at_ms);
        assert_ne!(pair[0].sandbox_id, pair[1].sandbox_id);
    }
}

#[test]
fn idle_sandboxes_are_left_until_they_expire() {
    let mut runtime = runtime();
    let mut request = CreateSandboxRequest::default();
    request.idle_action = IdleAction::Destroy;
    let doomed = runtime.create(request, None).unwrap();
    let other = runtime
        .create(CreateSandboxRequest::default(), None)
        .unwrap();
    runtime.reap_idle(doomed.expires_at_ms - 1);
    assert_eq!(runtime.list().len(), 2);
    runtime.stop(&other.sandbox_id).unwrap();
    runtime.reap_idle(u64::MAX);
    let left = runtime.list();
    assert_eq!(left.len(), 1);
    assert_eq!(left[0].state, SandboxState::Stopped);
}

#[test]
fn a_backend_that_fails_to_start_leaves_a_failed_sandbox() {
    let mut runtime = VmRuntime::new(BrokenFactory);
    let error = runtime
        .create(CreateSandboxRequest::default(), Some("key"))
        .unwrap_err();
    assert_eq!(error.message(), "no kernel");
    let all = runtime.list();
    assert_eq!(all.len(), 1);
    assert_eq!(all[0].state, SandboxState::Failed);
    assert_eq!(all[0].failure_reason.as_deref(), Some("no kernel"));
    assert!(runtime
        .create(CreateSandboxRequest::default(), Some("key"))
        .is_err());
    assert_eq!(runtime.list().len(), 2);
}

#[test]
fn secrets_do_not_outlive_the_service() {
    let mut runtime = runtime();
    let plain = runtime
        .create(CreateSandboxRequest::default(), None)
        .unwrap();
    let secret = runtime.create(secret_request("s"), None).unwrap();
    assert!(needs_checkpoint(&plain));
    assert!(!needs_checkpoint(&secret));
    assert_eq!(restart_state(&plain), SandboxState::Running);
    assert_eq!(restart_state(&secret), SandboxState::Failed);
    let mut request = secret_request("s");
    request.env.insert("A".into(), "1".into());
    request.network.deny_cidrs.push("10.0.0.0/8".into());
    let kept = kept_request(&request);
    assert_eq!(kept.secrets.len(), 0);
    assert_eq!(kept.env.get("A").map(String::as_str), Some("1"));
    assert_eq!(kept.network.deny_cidrs, vec!["10.0.0.0/8".to_string()]);
    let mut plane: ControlPlane<()> = ControlPlane::new();
    let id = plain.sandbox_id.clone();
    plane.restore(plain, CreateSandboxRequest::default(), (), None);
    assert_eq!(plane.get(&id).unwrap().state, SandboxState::Running);
    plane.restore_key("lost".into(), "sbx_gone".into());
    assert!(plane.created_under(Some("lost")).is_none());
    plane.restore_key("key".into(), id.clone());
    assert_eq!(
        plane.created_under(Some("key")).unwrap().unwrap().sandbox_id,
        id
    );
    let id = secret.sandbox_id.clone();
    plane.restore(secret, CreateSandboxRequest::default(), (), None);
    assert_eq!(plane.get(&id).unwrap().state, SandboxState::Failed);
}

struct SlowFactory(Arc<AtomicUsize>);

impl SandboxBackendFactory for SlowFactory {
    type Backend = NoopBackend;

    fn create(
        &self,
        _sandbox_id: &str,
        _request: &CreateSandboxRequest,
    ) -> Result<NoopBackend, RuntimeError> {
        self.0.fetch_add(1, Ordering::SeqCst);
        Ok(NoopBackend { starts: true })
    }
}

struct BrokenFactory;

impl SandboxBackendFactory for BrokenFactory {
    type Backend = NoopBackend;

    fn create(
        &self,
        _sandbox_id: &str,
        _request: &CreateSandboxRequest,
    ) -> Result<NoopBackend, RuntimeError> {
        Ok(NoopBackend { starts: false })
    }
}

struct NoopBackend {
    starts: bool,
}

impl SandboxBackend for NoopBackend {
    fn start(&mut self) -> Result<(), RuntimeError> {
        if self.starts {
            Ok(())
        } else {
            Err(RuntimeError::Backend("no kernel".into()))
        }
    }
    fn pause(&mut self) -> Result<(), RuntimeError> {
        Ok(())
    }
    fn resume(&mut self) -> Result<(), RuntimeError> {
        Ok(())
    }
    fn stop(&mut self) -> Result<(), RuntimeError> {
        Ok(())
    }
    fn destroy(&mut self) -> Result<(), RuntimeError> {
        Ok(())
    }
    fn run_command(&mut self, _request: CommandRequest) -> Result<CommandResult, RuntimeError> {
        unreachable!()
    }
    fn kill_command(&mut self, _id: &str) -> Result<(), RuntimeError> {
        unreachable!()
    }
    fn read_file(&self, _path: &str, _max: u64) -> Result<Vec<u8>, RuntimeError> {
        unreachable!()
    }
    fn write_file(&mut self, _path: &str, _data: &[u8]) -> Result<(), RuntimeError> {
        unreachable!()
    }
    fn list_dir(&self, _path: &str) -> Result<Vec<FileEntry>, RuntimeError> {
        unreachable!()
    }
    fn remove(&mut self, _path: &str, _recursive: bool) -> Result<(), RuntimeError> {
        unreachable!()
    }
    fn snapshot(&mut self, _id: &str) -> Result<BackendSnapshot, RuntimeError> {
        unreachable!()
    }
}
