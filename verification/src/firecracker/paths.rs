//! The configuration, and the names of files and machines.

use crate::document::names::{file_name_of, path_file_name};
use crate::table::Table;
use crate::text::{chars_of, is_alnum_char, is_ascii_alphanumeric, string_of};
use crate::types::CreateSandboxRequest;
use crate::vm::error::{RuntimeError, RuntimeErrorView};
use vstd::prelude::*;
use vstd::utf8::encode_utf8;

verus! {

pub const DEFAULT_JAILER_ID: u32 = 1000;

pub const DEFAULT_AGENT_PORT: u32 = 10000;

pub const DEFAULT_BOOT_TIMEOUT_MS: u64 = 5000;

#[derive(Debug)]
pub struct FirecrackerConfig {
    pub firecracker_binary: String,
    pub jailer_binary: Option<String>,
    pub jailer_uid: u32,
    pub jailer_gid: u32,
    pub kernel_image: String,
    pub base_rootfs: String,
    /// The root file systems of templates other than the default one.
    pub template_rootfs: Table<String>,
    pub data_dir: String,
    pub agent_vsock_port: u32,
    pub boot_timeout_ms: u64,
}

// ---------------------------------------------------------------------------
// Paths
// ---------------------------------------------------------------------------
/// A path below another; an absolute path stays what it is.
pub open spec fn joined_path(base: Seq<char>, part: Seq<char>) -> Seq<char> {
    if part.len() > 0 && part[0] == '/' {
        part
    } else if base.len() == 0 || base.last() == '/' {
        base + part
    } else {
        base.push('/') + part
    }
}

pub fn join_path(base: &str, part: &str) -> (r: String)
    ensures
        r@ == joined_path(base@, part@),
{
    let b = chars_of(base);
    let p = chars_of(part);
    if p.len() > 0 && p[0] == '/' {
        return part.to_owned();
    }
    let mut out: String = base.to_owned();
    if b.len() > 0 && b[b.len() - 1] != '/' {
        out.push('/');
    }
    out.push_str(part);
    out
}

/// The character, or a hyphen where the jailer would not take it.
pub open spec fn jailer_char(c: char) -> char {
    if is_alnum_char(c) || c == '-' {
        c
    } else {
        '-'
    }
}

/// A sandbox's identifier as the jailer takes it.
pub open spec fn jail_name(sandbox_id: Seq<char>) -> Seq<char> {
    sandbox_id.map_values(|c: char| jailer_char(c))
}

pub fn jailer_id(sandbox_id: &str) -> (r: String)
    ensures
        r@ == jail_name(sandbox_id@),
{
    let chars = chars_of(sandbox_id);
    let mut out: Vec<char> = Vec::new();
    for i in 0..chars.len()
        invariant
            chars@ == sandbox_id@,
            out@ == jail_name(sandbox_id@.take(i as int)),
    {
        let c = chars[i];
        let kept = if is_ascii_alphanumeric(c) || c == '-' {
            c
        } else {
            '-'
        };
        out.push(kept);
        assert(out@ =~= jail_name(sandbox_id@.take(i + 1)));
    }
    assert(sandbox_id@.take(chars@.len() as int) =~= sandbox_id@);
    string_of(out.as_slice())
}

/// Every identifier becomes one that the jailer takes: as long, and made of
/// letters, digits and hyphens.
pub proof fn law_jailer_ids_are_valid(sandbox_id: Seq<char>)
    ensures
        jail_name(sandbox_id).len() == sandbox_id.len(),
        forall|i: int|
            0 <= i < jail_name(sandbox_id).len() ==> {
                let c = #[trigger] jail_name(sandbox_id)[i];
                is_alnum_char(c) || c == '-'
            },
{
}

/// The bytes of a path folded into a number.
pub open spec fn path_hash(bytes: Seq<u8>) -> nat
    decreases bytes.len(),
{
    if bytes.len() == 0 {
        0
    } else {
        (path_hash(bytes.drop_last()) * 31 + bytes.last() as nat) % 0x1_0000_0000
    }
}

/// The context identifier of the microVM in a directory.
pub open spec fn cid_of(path: Seq<char>) -> nat {
    3 + path_hash(encode_utf8(path)) % ((u32::MAX - 3) as nat)
}

pub fn guest_cid(path: &str) -> (r: u32)
    ensures
        r == cid_of(path@),
{
    let bytes = path.as_bytes();
    let mut hash: u64 = 0;
    for i in 0..bytes.len()
        invariant
            bytes@ == encode_utf8(path@),
            hash == path_hash(bytes@.take(i as int)),
            hash < 0x1_0000_0000,
    {
        assert(bytes@.take(i + 1).drop_last() =~= bytes@.take(i as int));
        hash = (hash * 31 + bytes[i] as u64) % 0x1_0000_0000;
    }
    assert(bytes@.take(bytes@.len() as int) =~= bytes@);
    3 + (hash % ((u32::MAX - 3) as u64)) as u32
}

/// No microVM gets one of the reserved context identifiers.
pub proof fn law_guest_cid_is_not_reserved(path: Seq<char>)
    ensures
        3 <= cid_of(path) < u32::MAX,
{
}

// ---------------------------------------------------------------------------
// Directories
// ---------------------------------------------------------------------------
/// Where the files of a sandbox are; nowhere if the binary has no name.
pub open spec fn directory_of(config: FirecrackerConfig, sandbox_id: Seq<char>) -> Option<Seq<char>> {
    if config.jailer_binary is Some {
        match path_file_name(config.firecracker_binary@) {
            None => None,
            Some(name) => Some(
                joined_path(
                    joined_path(
                        joined_path(joined_path(config.data_dir@, "jailer"@), name),
                        jail_name(sandbox_id),
                    ),
                    "root"@,
                ),
            ),
        }
    } else {
        Some(joined_path(joined_path(config.data_dir@, "sandboxes"@), sandbox_id))
    }
}

pub fn sandbox_dir(config: &FirecrackerConfig, sandbox_id: &str) -> (r: Result<String, RuntimeError>)
    ensures
        match directory_of(*config, sandbox_id@) {
            Some(dir) => r matches Ok(d) && d@ == dir,
            None => r matches Err(e) && e@ == RuntimeErrorView::Invalid(
                "firecracker binary has no file name"@,
            ),
        },
{
    if config.jailer_binary.is_some() {
        match file_name_of(config.firecracker_binary.as_str()) {
            None => Err(RuntimeError::Invalid("firecracker binary has no file name".to_owned())),
            Some(name) => {
                let jails = join_path(config.data_dir.as_str(), "jailer");
                let of_binary = join_path(jails.as_str(), name.as_str());
                let id = jailer_id(sandbox_id);
                let jail = join_path(of_binary.as_str(), id.as_str());
                Ok(join_path(jail.as_str(), "root"))
            },
        }
    } else {
        let all = join_path(config.data_dir.as_str(), "sandboxes");
        Ok(join_path(all.as_str(), sandbox_id))
    }
}

/// The name under which Firecracker finds a file of a sandbox: in a jail the
/// sandbox's directory is the root.
pub open spec fn inside(dir: Seq<char>, name: Seq<char>, jailed: bool) -> Seq<char> {
    joined_path(if jailed { "/"@ } else { dir }, name)
}

pub fn fc_path(dir: &str, name: &str, jailed: bool) -> (r: String)
    ensures
        r@ == inside(dir@, name@, jailed),
{
    if jailed {
        join_path("/", name)
    } else {
        join_path(dir, name)
    }
}

// ---------------------------------------------------------------------------
// Policies
// ---------------------------------------------------------------------------
/// Why a request asks for more than the backend does, if it does.
pub open spec fn support_error(request: CreateSandboxRequest) -> Option<Seq<char>> {
    if request.knowledge is Some {
        Some("knowledge storage is not configured yet"@)
    } else if !request.network.deny_private_network || request.network.allow_cidrs@.len() > 0
        || request.network.allow_domains@.len() > 0 {
        Some("network access is disabled; allow rules require a configured network backend"@)
    } else {
        None
    }
}

pub fn validate_supported_request(request: &CreateSandboxRequest) -> (r: Result<(), RuntimeError>)
    ensures
        match support_error(*request) {
            None => r is Ok,
            Some(text) => r matches Err(e) && e@ == RuntimeErrorView::Invalid(text),
        },
{
    if request.knowledge.is_some() {
        return Err(RuntimeError::Invalid("knowledge storage is not configured yet".to_owned()));
    }
    if !request.network.deny_private_network || request.network.allow_cidrs.len() > 0
        || request.network.allow_domains.len() > 0 {
        return Err(
            RuntimeError::Invalid(
                "network access is disabled; allow rules require a configured network backend".to_owned(),
            ),
        );
    }
    Ok(())
}

/// The networks that no sandbox reaches, and what they are.
pub fn default_private_denies() -> (r: [(&'static str, &'static str); 5])
    ensures
        r@ == seq![
            ("10.0.0.0/8", "private"),
            ("127.0.0.0/8", "loopback"),
            ("169.254.0.0/16", "link-local and metadata"),
            ("172.16.0.0/12", "private"),
            ("192.168.0.0/16", "private"),
        ],
{
    [
        ("10.0.0.0/8", "private"),
        ("127.0.0.0/8", "loopback"),
        ("169.254.0.0/16", "link-local and metadata"),
        ("172.16.0.0/12", "private"),
        ("192.168.0.0/16", "private"),
    ]
}

} // verus!
