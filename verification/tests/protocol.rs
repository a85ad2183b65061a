use vento_agent_runtime::protocol::{accepts_frame, validate_guest_path, MAX_FRAME_BYTES};

#[test]
fn knowledge_is_read_only() {
    assert!(validate_guest_path("/knowledge/a.md", false).is_ok());
    assert!(validate_guest_path("/knowledge/a.md", true).is_err());
}

#[test]
fn path_policy_rejects_traversal_nul_relative_and_system_paths() {
    for path in [
        "workspace/a",
        "/workspace/../etc/passwd",
        "/etc/passwd",
        "/workspace/a\0b",
    ] {
        assert!(
            validate_guest_path(path, false).is_err(),
            "accepted {path:?}"
        );
    }
}

#[test]
fn workspace_and_tmp_are_writable_but_roots_are_scoped() {
    for path in ["/workspace", "/workspace/a/b", "/tmp", "/tmp/output"] {
        assert!(validate_guest_path(path, true).is_ok(), "rejected {path}");
    }
    for path in ["/", "/home", "/proc", "/knowledge", "/knowledge/a"] {
        assert!(validate_guest_path(path, true).is_err(), "accepted {path}");
    }
}

#[test]
fn refusals_say_why() {
    assert_eq!(
        validate_guest_path("relative", false),
        Err("path must be absolute and cannot contain traversal")
    );
    assert_eq!(
        validate_guest_path("", false),
        Err("path must be absolute and cannot contain traversal")
    );
    assert_eq!(
        validate_guest_path("/workspaces/a", false),
        Err("path is outside sandbox data roots")
    );
    assert!(validate_guest_path("/workspace/..a", true).is_ok());
}

#[test]
fn long_frames_are_dropped() {
    assert_eq!(MAX_FRAME_BYTES, 8 * 1024 * 1024);
    assert!(accepts_frame(MAX_FRAME_BYTES));
    assert!(!accepts_frame(MAX_FRAME_BYTES + 1));
}
