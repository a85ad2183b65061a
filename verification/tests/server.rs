use vento_agent_runtime::server::{
    accepts_token, authorize, error_reply, local_runtime_args, reply_failure, runtime_url,
    unauthorized, DEFAULT_READ_LIMIT,
};
use vento_agent_runtime::vm::error::RuntimeError;

#[test]
fn only_the_token_is_let_in() {
    let token = "0123456789abcdef01234567";
    assert!(accepts_token(token));
    assert!(!accepts_token("short"));
    assert!(authorize(Some("Bearer 0123456789abcdef01234567"), token));
    assert!(!authorize(Some("bearer 0123456789abcdef01234567"), token));
    assert!(!authorize(Some("Bearer 0123456789abcdef0123456"), token));
    assert!(!authorize(Some(token), token));
    assert!(!authorize(None, token));
}

#[test]
fn errors_are_answered_in_one_shape() {
    let reply = unauthorized();
    assert_eq!(reply.status, 401);
    assert_eq!(reply.body.code, "UNAUTHORIZED");
    assert_eq!(reply.body.message, "authentication required");
    assert!(reply.body.request_id.unwrap().starts_with("req_"));
    for (error, status, code) in [
        (RuntimeError::NotFound, 404, "SANDBOX_NOT_FOUND"),
        (RuntimeError::Conflict("busy".into()), 409, "STATE_CONFLICT"),
        (RuntimeError::Invalid("bad".into()), 400, "INVALID_INPUT"),
        (
            RuntimeError::SecretsCannotBeSnapshotted,
            409,
            "SECRETS_CANNOT_BE_SNAPSHOTTED",
        ),
        (RuntimeError::Backend("down".into()), 500, "BACKEND_ERROR"),
    ] {
        let reply = error_reply(&error);
        assert_eq!(reply.status, status);
        assert_eq!(reply.body.code, code);
        assert_eq!(reply.body.message, error.message());
    }
    assert_eq!(DEFAULT_READ_LIMIT, 16 * 1024 * 1024);
}

#[test]
fn clients_address_the_server() {
    assert_eq!(
        runtime_url("http://127.0.0.1:8088//", "/sandboxes").unwrap(),
        "http://127.0.0.1:8088/sandboxes"
    );
    for path in ["sandboxes", "", "/a/../b", "/a..b"] {
        assert_eq!(
            runtime_url("http://h", path),
            Err("path must be absolute without traversal")
        );
    }
    assert_eq!(
        reply_failure("404 Not Found", "{}"),
        "runtime returned HTTP 404 Not Found: {}"
    );
}

#[test]
fn local_servers_get_their_arguments() {
    let token = "0123456789abcdef01234567";
    assert_eq!(
        local_runtime_args(true, "127.0.0.1:1", token, Some("/c.json")).unwrap(),
        vec![
            "--listen",
            "127.0.0.1:1",
            "--token",
            token,
            "--firecracker-config",
            "/c.json"
        ]
    );
    assert_eq!(
        local_runtime_args(true, "l", token, None).unwrap().len(),
        4
    );
    assert_eq!(
        local_runtime_args(true, "l", "short", None),
        Err("token must contain at least 24 characters")
    );
    assert_eq!(
        local_runtime_args(false, "l", token, None),
        Err("local Firecracker runtime requires Linux")
    );
}
