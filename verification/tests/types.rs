use vento_agent_runtime::types::{
    expiry, new_id, now_ms, timestamp_of, CreateSandboxRequest, IdleAction, ResourceLimits,
    RuntimeTypeError, SandboxState,
};

#[test]
fn destroyed_is_terminal() {
    assert!(!SandboxState::Destroyed.can_transition_to(SandboxState::Running));
}

#[test]
fn defaults_meet_mvp_baseline() {
    let config = CreateSandboxRequest::default();
    assert_eq!(config.resources.memory_mb, 256);
    assert!(config.network.deny_private_network);
}

#[test]
fn defaults_are_those_of_a_small_sandbox() {
    let config = CreateSandboxRequest::default();
    assert_eq!(config.template, "debian-slim");
    assert_eq!(config.timeout_seconds, 3_600);
    assert_eq!(config.idle_action, IdleAction::Pause);
    assert_eq!(config.resources.cpu_count, 1);
    assert_eq!(config.resources.disk_mb, 2_048);
    assert_eq!(config.resources.max_processes, 64);
    assert_eq!(config.secrets.len(), 0);
    assert!(config.resources.validate().is_ok());
}

#[test]
fn states_change_as_they_may() {
    let states = [
        SandboxState::Creating,
        SandboxState::Running,
        SandboxState::Paused,
        SandboxState::Stopped,
        SandboxState::Failed,
        SandboxState::Destroyed,
    ];
    for state in states {
        assert!(state.can_transition_to(state));
        assert!(state.can_transition_to(SandboxState::Destroyed));
        assert_eq!(
            SandboxState::Destroyed.can_transition_to(state),
            state == SandboxState::Destroyed
        );
    }
    assert!(SandboxState::Creating.can_transition_to(SandboxState::Running));
    assert!(!SandboxState::Creating.can_transition_to(SandboxState::Paused));
    assert!(SandboxState::Paused.can_transition_to(SandboxState::Running));
    assert!(!SandboxState::Stopped.can_transition_to(SandboxState::Paused));
    assert!(!SandboxState::Failed.can_transition_to(SandboxState::Running));
}

#[test]
fn each_limit_has_a_range() {
    let check = |limits: ResourceLimits| match limits.validate() {
        Ok(()) => String::new(),
        Err(error) => error.message(),
    };
    let good = ResourceLimits::default();
    assert_eq!(check(good), "");
    assert_eq!(check(ResourceLimits { cpu_count: 0, ..good }), "cpuCount must be 1..=32");
    assert_eq!(check(ResourceLimits { cpu_count: 33, ..good }), "cpuCount must be 1..=32");
    assert_eq!(
        check(ResourceLimits { memory_mb: 127, ..good }),
        "memoryMB must be 128..=131072"
    );
    assert_eq!(check(ResourceLimits { memory_mb: 131_072, ..good }), "");
    assert_eq!(
        check(ResourceLimits { disk_mb: 255, ..good }),
        "diskMB must be 256..=1048576"
    );
    assert_eq!(
        check(ResourceLimits { max_processes: 32_769, ..good }),
        "maxProcesses must be 1..=32768"
    );
}

#[test]
fn illegal_transitions_are_named() {
    let error = RuntimeTypeError::IllegalTransition {
        from: SandboxState::Destroyed,
        to: SandboxState::Running,
    };
    assert_eq!(error.message(), "illegal state transition Destroyed -> Running");
}

#[test]
fn identifiers_carry_their_prefix() {
    let first = new_id("sbx");
    let second = new_id("sbx");
    assert_ne!(first, second);
    assert_eq!(first.len(), 36);
    assert!(first.starts_with("sbx_"));
    let digits = &first[4..];
    assert!(digits
        .chars()
        .all(|c| c.is_ascii_digit() || ('a'..='f').contains(&c)));
    assert_eq!(&digits[12..13], "7");
}

#[test]
fn time_is_counted_in_milliseconds() {
    assert_eq!(timestamp_of(None), 0);
    assert_eq!(timestamp_of(Some(1_700_000_000_000)), 1_700_000_000_000);
    assert_eq!(timestamp_of(Some(u128::MAX)), u64::MAX);
    assert!(now_ms() > 1_600_000_000_000);
    assert_eq!(expiry(1_000, 60), 61_000);
    assert_eq!(expiry(u64::MAX - 1, 1), u64::MAX);
    assert_eq!(expiry(0, u64::MAX), u64::MAX);
}
