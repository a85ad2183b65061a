//! What the host and the agent in the guest say to each other.

use crate::table::Table;
use crate::text::{chars_of, contains_char, matches_at, same_text, split, split_of, starts_with, texts};
use crate::types::{CommandRequest, CommandResult, FileEntry};
use vstd::prelude::*;

verus! {

pub const PROTOCOL_VERSION: u16 = 1;

pub const MAX_FRAME_BYTES: usize = 8388608;

#[derive(Debug)]
pub enum AgentRequest {
    Ready,
    Configure { env: Table<String>, max_processes: u32 },
    Run(CommandRequest),
    Kill { command_id: String },
    ReadFile { path: String, max_bytes: u64 },
    WriteFile { path: String, data: Vec<u8>, mode: Option<u32> },
    ListDir { path: String },
    Stat { path: String },
    Mkdir { path: String, recursive: bool },
    Remove { path: String, recursive: bool },
    Sync,
    Shutdown,
}

#[derive(Debug)]
pub enum AgentResponse {
    Ready { version: u16 },
    Command(CommandResult),
    Bytes(Vec<u8>),
    Entries(Vec<FileEntry>),
    Entry(FileEntry),
    Empty,
    Error { code: String, message: String },
}

/// Whether a path is a directory or lies below it.
pub open spec fn within(path: Seq<char>, root: Seq<char>) -> bool {
    path == root || starts_with(path, root.push('/'))
}

/// Whether a path is absolute, free of NUL and free of `..` components.
pub open spec fn is_plain_path(path: Seq<char>) -> bool {
    &&& path.len() > 0 && path[0] == '/'
    &&& !path.contains('\0')
    &&& !split(path, '/').contains(".."@)
}

/// The data roots that may be read, or written where `writable`.
pub open spec fn in_data_root(path: Seq<char>, writable: bool) -> bool {
    ||| within(path, "/workspace"@)
    ||| within(path, "/tmp"@)
    ||| !writable && within(path, "/knowledge"@)
}

/// Why a path in the guest is refused, if it is.
pub open spec fn path_error(path: Seq<char>, writable: bool) -> Option<Seq<char>> {
    if !is_plain_path(path) {
        Some("path must be absolute and cannot contain traversal"@)
    } else if !in_data_root(path, writable) {
        Some("path is outside sandbox data roots"@)
    } else {
        None
    }
}

fn is_within(path: &[char], root: &str) -> (b: bool)
    ensures
        b == within(path@, root@),
{
    let mut r = chars_of(root);
    if path.len() == r.len() {
        let same = matches_at(path, r.as_slice(), 0);
        proof {
            assert(path@.subrange(0, r@.len() as int) =~= path@);
            if starts_with(path@, root@.push('/')) {
                assert(root@.push('/').len() <= path@.len());
            }
        }
        same
    } else {
        r.push('/');
        matches_at(path, r.as_slice(), 0)
    }
}

fn has_parent_part(path: &[char]) -> (b: bool)
    ensures
        b == split(path@, '/').contains(".."@),
{
    let parts = split_of(path, '/');
    for i in 0..parts.len()
        invariant
            texts(parts@) == split(path@, '/'),
            forall|j: int| 0 <= j < i ==> (#[trigger] parts@[j])@ != ".."@,
    {
        if same_text(parts[i].as_str(), "..") {
            assert(texts(parts@)[i as int] == ".."@);
            return true;
        }
    }
    proof {
        assert forall|j: int| 0 <= j < split(path@, '/').len() implies #[trigger] split(path@, '/')[j]
            != ".."@ by {
            assert(texts(parts@)[j] == parts@[j]@);
        }
    }
    false
}

/// Holds a path in the guest against the data roots.
pub fn validate_guest_path(path: &str, writable: bool) -> (r: Result<(), &'static str>)
    ensures
        match path_error(path@, writable) {
            None => r is Ok,
            Some(text) => r matches Err(e) && e@ == text,
        },
{
    let p = chars_of(path);
    if p.len() == 0 || p[0] != '/' || contains_char(p.as_slice(), '\0') || has_parent_part(
        p.as_slice(),
    ) {
        return Err("path must be absolute and cannot contain traversal");
    }
    if is_within(p.as_slice(), "/workspace") || is_within(p.as_slice(), "/tmp") || (!writable
        && is_within(p.as_slice(), "/knowledge")) {
        Ok(())
    } else {
        Err("path is outside sandbox data roots")
    }
}

/// Whatever may be written may also be read.
pub proof fn law_writable_paths_are_readable(path: Seq<char>)
    requires
        path_error(path, true) is None,
    ensures
        path_error(path, false) is None,
{
}

/// Nothing under the knowledge root can be written.
pub proof fn law_knowledge_is_read_only(path: Seq<char>)
    requires
        within(path, "/knowledge"@),
    ensures
        path_error(path, true) is Some,
{
    reveal_strlit("/knowledge");
    reveal_strlit("/workspace");
    reveal_strlit("/tmp");
    assert(path[1] == 'k') by {
        if path != "/knowledge"@ {
            let r = "/knowledge"@.push('/');
            assert(path.subrange(0, r.len() as int)[1] == r[1]);
        }
    }
    if within(path, "/workspace"@) && path != "/workspace"@ {
        let r = "/workspace"@.push('/');
        assert(path.subrange(0, r.len() as int)[1] == r[1]);
    }
    if within(path, "/tmp"@) && path != "/tmp"@ {
        let r = "/tmp"@.push('/');
        assert(path.subrange(0, r.len() as int)[1] == r[1]);
    }
}

/// Whether a line from the host is short enough to be looked at.
pub fn accepts_frame(len: usize) -> (b: bool)
    ensures
        b == (len <= MAX_FRAME_BYTES),
{
    len <= MAX_FRAME_BYTES
}

} // verus!
