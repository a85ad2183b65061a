//! The control plane over HTTP: who is let in, what errors are answered, and how a
//! client addresses it.

use crate::text::{
    chars_of, find, has_sub, lemma_find_sub, same_text, string_of, texts, trim_end_char,
    trim_end_char_of,
};
use crate::types::{is_id, new_id, ErrorBody};
use crate::vm::error::{error_code, error_status, error_text, RuntimeError};
use vstd::prelude::*;
use vstd::utf8::encode_utf8;

verus! {

broadcast use crate::text::lemma_texts_push;

/// Bytes that a token has at least.
pub const MIN_TOKEN_BYTES: usize = 24;

/// Bytes of a file that are read where the request does not say.
pub const DEFAULT_READ_LIMIT: u64 = 16777216;

/// Whether a token is long enough to be used.
pub fn accepts_token(token: &str) -> (b: bool)
    ensures
        b == (encode_utf8(token@).len() >= MIN_TOKEN_BYTES),
{
    token.as_bytes().len() >= MIN_TOKEN_BYTES
}

/// Whether a request with this authorization header is let in.
pub fn authorize(header: Option<&str>, token: &str) -> (b: bool)
    ensures
        b == (header matches Some(h) && h@ == "Bearer "@ + token@),
{
    match header {
        None => false,
        Some(h) => {
            let mut expected: String = "Bearer ".to_owned();
            expected.push_str(token);
            same_text(h, expected.as_str())
        },
    }
}

/// An error as it is answered.
#[derive(Debug)]
pub struct ErrorReply {
    pub status: u16,
    pub body: ErrorBody,
}

pub open spec fn answers(reply: ErrorReply, status: u16, code: Seq<char>, message: Seq<char>) -> bool {
    &&& reply.status == status
    &&& reply.body.code@ == code
    &&& reply.body.message@ == message
    &&& reply.body.request_id matches Some(id) && is_id(id@, "req"@)
}

/// The answer to a request that is not let in.
pub fn unauthorized() -> (r: ErrorReply)
    ensures
        answers(r, 401, "UNAUTHORIZED"@, "authentication required"@),
{
    ErrorReply {
        status: 401,
        body: ErrorBody {
            code: "UNAUTHORIZED".to_owned(),
            message: "authentication required".to_owned(),
            request_id: Some(new_id("req")),
        },
    }
}

/// The answer to a failed operation.
pub fn error_reply(error: &RuntimeError) -> (r: ErrorReply)
    ensures
        answers(r, error_status(error@), error_code(error@), error_text(error@)),
{
    ErrorReply {
        status: error.status(),
        body: ErrorBody {
            code: error.code().to_owned(),
            message: error.message(),
            request_id: Some(new_id("req")),
        },
    }
}

// ---------------------------------------------------------------------------
// Clients
// ---------------------------------------------------------------------------
/// Where a request goes; nowhere if the path could lead elsewhere.
pub open spec fn request_url(base: Seq<char>, path: Seq<char>) -> Option<Seq<char>> {
    if !(path.len() > 0 && path[0] == '/') || has_sub(path, ".."@) {
        None
    } else {
        Some(trim_end_char(base, '/') + path)
    }
}

pub fn runtime_url(base: &str, path: &str) -> (r: Result<String, &'static str>)
    ensures
        match request_url(base@, path@) {
            Some(url) => r matches Ok(u) && u@ == url,
            None => r matches Err(e) && e@ == "path must be absolute without traversal"@,
        },
{
    let p = chars_of(path);
    let dots = chars_of("..");
    proof {
        lemma_find_sub(path@, ".."@);
    }
    if p.len() == 0 || p[0] != '/' || find(p.as_slice(), dots.as_slice()).is_some() {
        return Err("path must be absolute without traversal");
    }
    let b = chars_of(base);
    let trimmed = trim_end_char_of(b.as_slice(), '/');
    let mut out = string_of(trimmed);
    out.push_str(path);
    Ok(out)
}

pub open spec fn failed_reply(status_text: Seq<char>, body: Seq<char>) -> Seq<char> {
    "runtime returned HTTP "@ + status_text + ": "@ + body
}

/// What a refused request is reported as.
pub fn reply_failure(status_text: &str, body: &str) -> (r: String)
    ensures
        r@ == failed_reply(status_text@, body@),
{
    let mut out: String = "runtime returned HTTP ".to_owned();
    out.push_str(status_text);
    out.push_str(": ");
    out.push_str(body);
    out
}

/// The command line of a local server.
pub open spec fn server_args(listen: Seq<char>, token: Seq<char>, config: Option<Seq<char>>) -> Seq<
    Seq<char>,
> {
    let args = seq!["--listen"@, listen, "--token"@, token];
    match config {
        Some(path) => args + seq!["--firecracker-config"@, path],
        None => args,
    }
}

/// How a local server is started.
pub fn local_runtime_args(linux: bool, listen: &str, token: &str, config: Option<&str>) -> (r: Result<
    Vec<String>,
    &'static str,
>)
    ensures
        if !linux {
            r matches Err(e) && e@ == "local Firecracker runtime requires Linux"@
        } else if encode_utf8(token@).len() < MIN_TOKEN_BYTES {
            r matches Err(e) && e@ == "token must contain at least 24 characters"@
        } else {
            r matches Ok(args) && texts(args@) == server_args(
                listen@,
                token@,
                match config {
                    Some(path) => Some(path@),
                    None => None,
                },
            )
        },
{
    if !linux {
        return Err("local Firecracker runtime requires Linux");
    }
    if !accepts_token(token) {
        return Err("token must contain at least 24 characters");
    }
    let mut args: Vec<String> = Vec::new();
    args.push("--listen".to_owned());
    args.push(listen.to_owned());
    args.push("--token".to_owned());
    args.push(token.to_owned());
    assert(texts(args@) =~= seq!["--listen"@, listen@, "--token"@, token@]);
    if let Some(path) = config {
        args.push("--firecracker-config".to_owned());
        args.push(path.to_owned());
        assert(texts(args@) =~= server_args(listen@, token@, Some(path@)));
    }
    Ok(args)
}

} // verus!
