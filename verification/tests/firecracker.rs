use vento_agent_runtime::firecracker::api::{
    check_handshake, check_response, connect_line, expect_bytes, expect_command, expect_empty,
    expect_entries, may_read, readiness, request_head, socket_step, take_byte, wants_more, ApiCall, Readiness,
};
use vento_agent_runtime::firecracker::machine::{
    after_failed_start, configure_request, leaves_process, snapshot_size, transient_entries, MicroVm,
    StartStage, StartStep,
};
use vento_agent_runtime::firecracker::paths::{
    default_private_denies, fc_path, guest_cid, jailer_id, join_path, sandbox_dir,
    validate_supported_request, FirecrackerConfig,
};
use vento_agent_runtime::firecracker::plan::{
    grown_size, list_paused_files, plan_recovery, FirecrackerFactory,
};
use vento_agent_runtime::firecracker::steps::HostStep;
use vento_agent_runtime::json::Json;
use vento_agent_runtime::protocol::{AgentRequest, AgentResponse};
use vento_agent_runtime::table::Table;
use vento_agent_runtime::types::{CreateSandboxRequest, KnowledgeMount, SandboxState};
use vento_agent_runtime::vm::error::RuntimeError;

fn config(jailer: Option<&str>) -> FirecrackerConfig {
    FirecrackerConfig {
        firecracker_binary: "/opt/bin/firecracker".into(),
        jailer_binary: jailer.map(str::to_string),
        jailer_uid: 1000,
        jailer_gid: 1001,
        kernel_image: "/img/vmlinux".into(),
        base_rootfs: "/img/base.ext4".into(),
        template_rootfs: Table::new(),
        data_dir: "/data".into(),
        agent_vsock_port: 10_000,
        boot_timeout_ms: 5_000,
    }
}

fn describe(step: &HostStep) -> String {
    match step {
        HostStep::Require { path, missing } => format!("require {path} or {missing}"),
        HostStep::Refuse(error) => format!("refuse {}", error.message()),
        HostStep::MakeDir { path } => format!("mkdir {path}"),
        HostStep::ProbeReflink { source, target } => format!("probe {source} {target}"),
        HostStep::Clone { from, to, lost } => format!("clone {from} {to} {lost:?}"),
        HostStep::Resize { path, disk_mb } => format!("resize {path} {disk_mb}"),
        HostStep::Own { path, uid, gid } => format!("own {path} {uid} {gid}"),
        HostStep::Call(call) => format!("{} {}", call.method(), call.path()),
        HostStep::Sync => "sync".to_string(),
    }
}

fn described(steps: &[HostStep]) -> Vec<String> {
    steps.iter().map(describe).collect()
}

#[test]
fn guest_cid_is_not_reserved() {
    assert!(guest_cid("sandbox") >= 3);
}

#[test]
fn guest_cids_follow_the_path() {
    assert_eq!(guest_cid(""), 3);
    assert_eq!(guest_cid("a"), 3 + 97);
    assert_eq!(guest_cid("ab"), 3 + 97 * 31 + 98);
    assert_eq!(guest_cid("/data/é"), guest_cid("/data/é"));
    assert_ne!(guest_cid("/data/a"), guest_cid("/data/b"));
}

#[test]
fn runtime_id_is_mapped_to_a_valid_jailer_id() {
    assert_eq!(jailer_id("sbx_019ff8a6"), "sbx-019ff8a6");
    assert!(jailer_id("sbx_019ff8a6")
        .chars()
        .all(|character| character.is_ascii_alphanumeric() || character == '-'));
}

#[test]
fn unsupported_security_policies_fail_closed() {
    let mut request = CreateSandboxRequest::default();
    request.network.deny_private_network = false;
    assert!(validate_supported_request(&request).is_err());

    let request = CreateSandboxRequest {
        knowledge: Some(KnowledgeMount {
            bucket: "documents".into(),
            prefix: "tenant".into(),
            version: "v1".into(),
            mount_path: "/knowledge".into(),
        }),
        ..CreateSandboxRequest::default()
    };
    assert!(validate_supported_request(&request).is_err());
}

#[test]
fn allow_rules_are_refused_and_deny_rules_are_not() {
    let mut request = CreateSandboxRequest::default();
    request.network.deny_cidrs.push("8.8.8.8/32".into());
    assert!(validate_supported_request(&request).is_ok());
    request.network.allow_domains.push("example.test".into());
    match validate_supported_request(&request) {
        Err(RuntimeError::Invalid(message)) => assert_eq!(
            message,
            "network access is disabled; allow rules require a configured network backend"
        ),
        other => panic!("{other:?}"),
    }
    assert_eq!(default_private_denies()[1], ("127.0.0.0/8", "loopback"));
}

#[test]
fn preflight_rejects_missing_runtime_artifacts() {
    let mut missing = config(None);
    missing.firecracker_binary = "/nowhere/missing-firecracker".into();
    let factory = FirecrackerFactory::new(missing);
    let steps = factory.preflight(true);
    match &steps[0] {
        HostStep::Require { path, missing } => {
            assert_eq!(path, "/nowhere/missing-firecracker");
            assert!(missing.contains("firecracker does not exist"));
        }
        other => panic!("{other:?}"),
    }
    match &factory.preflight(false)[0] {
        HostStep::Refuse(error) => assert!(error.message().contains("requires Linux")),
        other => panic!("{other:?}"),
    }
}

#[test]
fn preflight_asks_for_everything_in_order() {
    let steps = described(&FirecrackerFactory::new(config(Some("/opt/bin/jailer"))).preflight(true));
    assert_eq!(
        steps,
        vec![
            "require /opt/bin/firecracker or firecracker does not exist: /opt/bin/firecracker",
            "require /img/vmlinux or kernel does not exist: /img/vmlinux",
            "require /img/base.ext4 or base rootfs does not exist: /img/base.ext4",
            "require /opt/bin/jailer or jailer does not exist: /opt/bin/jailer",
            "require /dev/kvm or /dev/kvm is unavailable",
            "mkdir /data",
            "probe /data/.reflink-source /data/.reflink-target",
        ]
    );
    let steps = described(&FirecrackerFactory::new(config(None)).preflight(true));
    assert_eq!(
        steps.last().unwrap(),
        "refuse jailerBinary is required for the Firecracker backend"
    );
    let mut other = config(Some("/opt/bin/jailer"));
    other.agent_vsock_port = 9;
    assert_eq!(
        described(&FirecrackerFactory::new(other).preflight(true)),
        vec!["refuse agentVsockPort must be 10000 for the bundled agentd"]
    );
}

#[test]
fn paths_are_joined_and_jailed() {
    assert_eq!(join_path("/a", "b"), "/a/b");
    assert_eq!(join_path("/a/", "b"), "/a/b");
    assert_eq!(join_path("/a", "/b"), "/b");
    assert_eq!(join_path("", "b"), "b");
    assert_eq!(fc_path("/d", "kernel.bin", true), "/kernel.bin");
    assert_eq!(fc_path("/d", "kernel.bin", false), "/d/kernel.bin");
    assert_eq!(
        sandbox_dir(&config(Some("/j")), "sbx_1").unwrap(),
        "/data/jailer/firecracker/sbx-1/root"
    );
    assert_eq!(
        sandbox_dir(&config(None), "sbx_1").unwrap(),
        "/data/sandboxes/sbx_1"
    );
    let mut nameless = config(Some("/j"));
    nameless.firecracker_binary = "/".into();
    assert!(sandbox_dir(&nameless, "sbx_1").is_err());
}

#[test]
fn a_sandbox_is_furnished() {
    let factory = FirecrackerFactory::new(config(Some("/j")));
    let request = CreateSandboxRequest::default();
    let steps = described(&factory.create(true, "sbx_1", &request));
    let dir = "/data/jailer/firecracker/sbx-1/root";
    assert_eq!(
        steps[7..].to_vec(),
        vec![
            format!("mkdir {dir}"),
            format!("clone /img/base.ext4 {dir}/rootfs.ext4 None"),
            format!("resize {dir}/rootfs.ext4 2048"),
            format!("clone /img/vmlinux {dir}/kernel.bin None"),
            format!("own {dir} 1000 1001"),
            format!("own {dir}/rootfs.ext4 1000 1001"),
            format!("own {dir}/kernel.bin 1000 1001"),
        ]
    );
}

#[test]
fn templates_and_snapshots_are_looked_up() {
    let mut with_template = config(Some("/j"));
    with_template
        .template_rootfs
        .insert("node".into(), "/img/node.ext4".into());
    let factory = FirecrackerFactory::new(with_template);
    let mut request = CreateSandboxRequest::default();
    request.template = "node".into();
    request.snapshot_id = Some("snp_1".into());
    let steps = described(&factory.create(true, "sbx_1", &request));
    let dir = "/data/jailer/firecracker/sbx-1/root";
    assert!(steps.contains(&format!("clone /img/node.ext4 {dir}/rootfs.ext4 None")));
    assert!(steps.contains(&format!(
        "clone /data/snapshots/snp_1/vmstate.bin {dir}/restore/vmstate.bin {:?}",
        Some("snapshot is unavailable or incomplete: snp_1")
    )));
    assert_eq!(
        steps.last().unwrap(),
        &format!("own {dir}/rootfs.ext4 1000 1001")
    );
    request.template = "other".into();
    let steps = described(&factory.create(true, "sbx_1", &request));
    assert_eq!(steps.last().unwrap(), "refuse unknown template: other");
    request.knowledge = Some(KnowledgeMount {
        bucket: "b".into(),
        prefix: "p".into(),
        version: "v".into(),
        mount_path: "/knowledge".into(),
    });
    let steps = described(&factory.create(true, "sbx_1", &request));
    assert_eq!(
        steps.last().unwrap(),
        "refuse knowledge storage is not configured yet"
    );
    let bare = FirecrackerFactory::new(config(None));
    let mut request = CreateSandboxRequest::default();
    request.snapshot_id = Some("snp_1".into());
    let steps = described(&bare.create(true, "sbx_1", &request));
    assert_eq!(
        steps.last().unwrap(),
        "refuse snapshot restore requires jailer so device paths remain stable"
    );
}

#[test]
fn recovery_asks_for_what_must_be_there() {
    let factory = FirecrackerFactory::new(config(Some("/j")));
    let request = CreateSandboxRequest::default();
    let steps = described(&factory.recover(true, "sbx_1", &request));
    let dir = "/data/jailer/firecracker/sbx-1/root";
    assert_eq!(
        steps[7..].to_vec(),
        vec![
            format!(
                "require {dir}/rootfs.ext4 or cannot recover sbx_1: sandbox rootfs is missing at {dir}/rootfs.ext4"
            ),
            format!(
                "require {dir}/kernel.bin or cannot recover sbx_1: sandbox kernel is missing at {dir}/kernel.bin"
            ),
        ]
    );
}

#[test]
fn recovery_follows_the_state() {
    let files = list_paused_files("/d");
    assert_eq!(
        files,
        vec!["/d/paused/vmstate.bin", "/d/paused/memory.bin", "/d/paused/rootfs.ext4"]
    );
    let refused = plan_recovery("/d", "sbx_1", SandboxState::Paused, [true, false, true]);
    match refused.refusal {
        Some(RuntimeError::Backend(text)) => assert_eq!(
            text,
            "cannot recover paused sandbox sbx_1: /d/paused/memory.bin is missing"
        ),
        other => panic!("{other:?}"),
    }
    let config = config(None);
    let paused = plan_recovery("/d", "sbx_1", SandboxState::Paused, [true; 3]);
    assert!(paused.refusal.is_none() && paused.wakes && !paused.start);
    let vm = MicroVm::recovered(&config, "sbx_1", "/d".into(), &paused);
    assert_eq!(vm.saved.as_deref(), Some("paused"));
    let running = plan_recovery("/d", "sbx_1", SandboxState::Running, [true; 3]);
    assert!(running.refusal.is_none() && running.wakes && running.start);
    let fresh = plan_recovery("/d", "sbx_1", SandboxState::Running, [false, true, true]);
    assert!(fresh.refusal.is_none() && !fresh.wakes && fresh.start);
    let stopped = plan_recovery("/d", "sbx_1", SandboxState::Stopped, [false; 3]);
    assert!(stopped.refusal.is_none() && !stopped.wakes && !stopped.start);
    let vm = MicroVm::recovered(&config, "sbx_1", "/d".into(), &stopped);
    assert_eq!(vm.saved, None);
}

#[test]
fn disks_only_grow() {
    assert!(matches!(grown_size(2 * 1024 * 1024, 2), Ok(None)));
    assert!(matches!(grown_size(1024 * 1024, 2), Ok(Some(2_097_152))));
    match grown_size(2 * 1024 * 1024 + 1, 2) {
        Err(error) => assert_eq!(
            error.message(),
            "diskMB is smaller than the 3 MiB base image"
        ),
        other => panic!("{other:?}"),
    }
}

#[test]
fn a_microvm_boots_pauses_and_wakes() {
    let config = config(Some("/j"));
    let request = CreateSandboxRequest::default();
    let mut vm = MicroVm::made(&config, "sbx_1", "/d".into(), &request);
    match vm.begin_start(&config, &request) {
        StartStep::Launch { launch, steps } => {
            assert_eq!(launch.program, "/j");
            assert_eq!(
                launch.args.join(" "),
                "--id sbx-1 --exec-file /opt/bin/firecracker --uid 1000 --gid 1001 \
                 --chroot-base-dir /data/jailer -- --api-sock /firecracker.sock"
            );
            assert_eq!(
                described(&steps),
                vec![
                    "PUT /machine-config",
                    "PUT /boot-source",
                    "PUT /drives/rootfs",
                    "PUT /vsock",
                    "PUT /actions",
                ]
            );
        }
        StartStep::Running => panic!("runs already"),
    }
    assert!(vm.begin_pause(&config).is_none());
    assert!(vm.begin_snapshot(&config, "snp_1").is_err());
    vm.started();
    assert!(matches!(vm.begin_start(&config, &request), StartStep::Running));
    let steps = vm.begin_pause(&config).expect("runs");
    assert_eq!(
        described(&steps),
        vec![
            "sync",
            "mkdir /d/paused",
            "own /d/paused 1000 1001",
            "PATCH /vm",
            "clone /d/rootfs.ext4 /d/paused/rootfs.ext4 None",
            "PUT /snapshot/create",
        ]
    );
    vm.paused();
    match vm.begin_start(&config, &request) {
        StartStep::Launch { steps, .. } => assert_eq!(
            described(&steps),
            vec![
                "clone /d/paused/rootfs.ext4 /d/rootfs.ext4 None",
                "own /d/rootfs.ext4 1000 1001",
                "PUT /snapshot/load",
            ]
        ),
        StartStep::Running => panic!("runs already"),
    }
    vm.stopped();
    assert_eq!(vm.saved, None);
    assert!(!vm.running);
}

#[test]
fn snapshots_outlive_their_sandbox() {
    let config = config(None);
    let request = CreateSandboxRequest::default();
    let mut vm = MicroVm::made(&config, "sbx_1", "/d".into(), &request);
    vm.started();
    let plan = vm.begin_snapshot(&config, "snp_1").expect("runs");
    assert_eq!(described(&plan.capture).last().unwrap(), "PATCH /vm");
    assert_eq!(
        plan.measured,
        vec![
            "/d/snapshots/snp_1/vmstate.bin",
            "/d/snapshots/snp_1/memory.bin",
            "/d/snapshots/snp_1/rootfs.ext4",
        ]
    );
    assert_eq!(
        described(&plan.publish),
        vec![
            "mkdir /data/snapshots/snp_1",
            "clone /d/snapshots/snp_1/vmstate.bin /data/snapshots/snp_1/vmstate.bin None",
            "clone /d/snapshots/snp_1/memory.bin /data/snapshots/snp_1/memory.bin None",
            "clone /d/snapshots/snp_1/rootfs.ext4 /data/snapshots/snp_1/rootfs.ext4 None",
        ]
    );
    assert_eq!(snapshot_size(1, 2, 3), 6);
    vm.destroyed();
    assert!(!vm.running);
}

#[test]
fn jailer_restart_removes_only_transient_chroot_files() {
    let removed: Vec<&str> = transient_entries().iter().map(|(name, _)| *name).collect();
    assert_eq!(
        removed,
        vec![
            "dev",
            "run",
            "firecracker",
            "firecracker.pid",
            "firecracker.sock",
            "agent.vsock",
        ]
    );
    for preserved in ["rootfs.ext4", "kernel.bin", "paused"] {
        assert!(!removed.contains(&preserved), "{preserved} removed");
    }
    let directories = transient_entries().iter().filter(|(_, dir)| *dir).count();
    assert_eq!(directories, 2);
}

#[test]
fn requests_to_firecracker_are_framed() {
    assert_eq!(
        request_head("PUT", "/machine-config", 2),
        "PUT /machine-config HTTP/1.1\r\nHost: localhost\r\nContent-Type: application/json\r\nContent-Length: 2\r\nConnection: close\r\n\r\n"
    );
    let head = b"HTTP/1.1 204 No Content\r\nContent-Length: 0\r\n\r\n".to_vec();
    assert!(matches!(wants_more(&head), Ok(false)));
    assert!(matches!(wants_more(&head[..10].to_vec()), Ok(true)));
    assert!(wants_more(&vec![65; 16 * 1024]).is_err());
    assert!(check_response("PUT", "/vm", &head).is_ok());
    let bad = b"HTTP/1.1 400 Bad Request\r\n\r\n".to_vec();
    match check_response("PUT", "/vm", &bad) {
        Err(error) => assert_eq!(
            error.message(),
            "Firecracker PUT /vm failed: HTTP/1.1 400 Bad Request"
        ),
        Ok(()) => panic!("accepted"),
    }
}

#[test]
fn bodies_say_what_is_asked() {
    let text = |value: &Json, key: &str| match value.get(key) {
        Some(Json::Text(text)) => text.clone(),
        other => panic!("{key}: {other:?}"),
    };
    let body = Json::Object(ApiCall::BootSource { kernel: "/kernel.bin".into() }.fields());
    assert_eq!(text(&body, "kernel_image_path"), "/kernel.bin");
    assert_eq!(
        text(&body, "boot_args"),
        "console=ttyS0 reboot=k panic=1 pci=off init=/agentd"
    );
    let body = Json::Object(ApiCall::MachineConfig { cpu_count: 2, memory_mb: 256 }.fields());
    assert!(matches!(body.get("vcpu_count"), Some(Json::Number(n)) if n == "2"));
    assert!(matches!(body.get("smt"), Some(Json::Bool(false))));
    let body = Json::Object(ApiCall::LoadSnapshot { state: "/s".into(), memory: "/m".into() }.fields());
    assert!(matches!(body.pointer(&["mem_backend", "backend_path"]), Some(Json::Text(t)) if t == "/m"));
    assert_eq!(text(&Json::Object(ApiCall::Resume.fields()), "state"), "Resumed");
    assert_eq!(ApiCall::Pause.method(), "PATCH");
    assert_eq!(
        ApiCall::Resume.request_text(),
        "PATCH /vm HTTP/1.1\r\nHost: localhost\r\nContent-Type: application/json\r\nContent-Length: 19\r\nConnection: close\r\n\r\n{\"state\":\"Resumed\"}"
    );
    let config = ApiCall::MachineConfig { cpu_count: 2, memory_mb: 256 };
    assert!(config.request_text().contains("\"mem_size_mib\":256"));
    assert!(config.request_for("{}").ends_with("Content-Length: 2\r\nConnection: close\r\n\r\n{}"));
}

#[test]
fn the_agent_is_spoken_to_line_by_line() {
    assert_eq!(connect_line(10_000), "CONNECT 10000\n");
    assert!(check_handshake(&b"OK 1073741824".to_vec()).is_ok());
    match check_handshake(&b"NO\xff".to_vec()) {
        Err(error) => assert_eq!(error.message(), "vsock handshake failed: NO\u{fffd}"),
        Ok(()) => panic!("accepted"),
    }
    let mut line = Vec::new();
    assert!(!take_byte(&mut line, b'a'));
    assert!(take_byte(&mut line, b'\n'));
    assert_eq!(line, b"a");
    assert!(may_read(&line, 2).is_ok());
    assert!(may_read(&line, 1).is_err());
}

#[test]
fn answers_of_the_wrong_kind_are_errors() {
    assert!(expect_empty(AgentResponse::Empty, "Empty").is_ok());
    let refused = AgentResponse::Error { code: "IO_ERROR".into(), message: "gone".into() };
    match expect_bytes(refused, "") {
        Err(error) => assert_eq!(error.message(), "agent IO_ERROR: gone"),
        Ok(_) => panic!("accepted"),
    }
    match expect_command(AgentResponse::Empty, "Empty") {
        Err(error) => assert_eq!(error.message(), "unexpected agent response: Empty"),
        Ok(_) => panic!("accepted"),
    }
    assert!(expect_entries(AgentResponse::Entries(vec![]), "").is_ok());
    assert!(matches!(
        readiness(&Some(AgentResponse::Ready { version: 1 }), false, ""),
        Readiness::Ready
    ));
    assert!(matches!(
        readiness(&Some(AgentResponse::Ready { version: 2 }), true, ""),
        Readiness::Wait { ms: 25 }
    ));
    match readiness(&None, false, "Err(refused)") {
        Readiness::GiveUp(error) => {
            assert_eq!(error.message(), "agentd did not become ready: Err(refused)")
        }
        other => panic!("{other:?}"),
    }
    assert!(matches!(socket_step(true, true), Readiness::Ready));
    assert!(matches!(socket_step(true, false), Readiness::Wait { ms: 10 }));
    match socket_step(false, true) {
        Readiness::GiveUp(error) => {
            assert_eq!(error.message(), "Firecracker API socket did not become ready")
        }
        other => panic!("{other:?}"),
    }
}

#[test]
fn secrets_join_the_variables_of_the_guest() {
    let mut request = CreateSandboxRequest::default();
    request.env.insert("A".into(), "1".into());
    request.env.insert("B".into(), "2".into());
    request.secrets.insert("B".into(), "hidden".into());
    match configure_request(&request) {
        AgentRequest::Configure { env, max_processes } => {
            assert_eq!(max_processes, 64);
            assert_eq!(env.get("A").map(String::as_str), Some("1"));
            assert_eq!(env.get("B").map(String::as_str), Some("hidden"));
        }
        other => panic!("{other:?}"),
    }
}

#[test]
fn a_failed_start_leaves_nothing_behind() {
    let error = || RuntimeError::Backend("no boot".into());
    for stage in [StartStage::Socket, StartStage::Steps, StartStage::Agent] {
        assert!(leaves_process(stage));
        let failed = after_failed_start(stage, error(), None);
        assert!(failed.remove_dir);
        assert_eq!(failed.error.message(), "no boot");
        let stuck = RuntimeError::Backend("stuck".into());
        let failed = after_failed_start(stage, error(), Some(stuck));
        assert!(!failed.remove_dir);
        assert_eq!(
            failed.error.message(),
            "no boot; additionally failed to terminate Firecracker: stuck"
        );
    }
    assert!(!leaves_process(StartStage::Launch));
    let failed = after_failed_start(StartStage::Launch, error(), None);
    assert!(!failed.remove_dir);
    assert_eq!(failed.error.message(), "no boot");
}
