//! Requests to Firecracker's own interface, and lines to the agent in the guest.

use crate::json::{
    encode_object, fields_view, lemma_fields_push, object_text, Json, JsonView,
};
use crate::protocol::{AgentResponse, PROTOCOL_VERSION};
use crate::text::{
    chars_of, decimal, decimal_of, decode_lossy, find, has_sub, lemma_find_sub, lines, lines_of,
    lossy_text, push_decimal, texts,
};
use crate::types::{CommandResult, FileEntry};
use crate::vm::error::{RuntimeError, RuntimeErrorView};
use vstd::prelude::*;
use vstd::utf8::encode_utf8;

verus! {

pub const BOOT_ARGS: &'static str = "console=ttyS0 reboot=k panic=1 pci=off init=/agentd";

/// Bytes of a response head that are read at most.
pub const MAX_HEAD_BYTES: usize = 16384;

/// Bytes of a line with which the agent's socket answers at most.
pub const MAX_HANDSHAKE_BYTES: usize = 128;

/// A request to Firecracker.
#[derive(Debug)]
pub enum ApiCall {
    MachineConfig { cpu_count: u8, memory_mb: u32 },
    BootSource { kernel: String },
    RootDrive { rootfs: String },
    Vsock { cid: u32, socket: String },
    InstanceStart,
    Pause,
    Resume,
    CreateSnapshot { state: String, memory: String },
    LoadSnapshot { state: String, memory: String },
}

/// The mathematical counterpart of [`ApiCall`].
pub enum ApiView {
    MachineConfig { cpu_count: u8, memory_mb: u32 },
    BootSource { kernel: Seq<char> },
    RootDrive { rootfs: Seq<char> },
    Vsock { cid: u32, socket: Seq<char> },
    InstanceStart,
    Pause,
    Resume,
    CreateSnapshot { state: Seq<char>, memory: Seq<char> },
    LoadSnapshot { state: Seq<char>, memory: Seq<char> },
}

impl View for ApiCall {
    type V = ApiView;

    open spec fn view(&self) -> ApiView {
        match self {
            ApiCall::MachineConfig { cpu_count, memory_mb } => ApiView::MachineConfig {
                cpu_count: *cpu_count,
                memory_mb: *memory_mb,
            },
            ApiCall::BootSource { kernel } => ApiView::BootSource { kernel: kernel@ },
            ApiCall::RootDrive { rootfs } => ApiView::RootDrive { rootfs: rootfs@ },
            ApiCall::Vsock { cid, socket } => ApiView::Vsock { cid: *cid, socket: socket@ },
            ApiCall::InstanceStart => ApiView::InstanceStart,
            ApiCall::Pause => ApiView::Pause,
            ApiCall::Resume => ApiView::Resume,
            ApiCall::CreateSnapshot { state, memory } => ApiView::CreateSnapshot {
                state: state@,
                memory: memory@,
            },
            ApiCall::LoadSnapshot { state, memory } => ApiView::LoadSnapshot {
                state: state@,
                memory: memory@,
            },
        }
    }
}

pub open spec fn api_method(call: ApiView) -> Seq<char> {
    match call {
        ApiView::Pause | ApiView::Resume => "PATCH"@,
        _ => "PUT"@,
    }
}

pub open spec fn api_path(call: ApiView) -> Seq<char> {
    match call {
        ApiView::MachineConfig { .. } => "/machine-config"@,
        ApiView::BootSource { .. } => "/boot-source"@,
        ApiView::RootDrive { .. } => "/drives/rootfs"@,
        ApiView::Vsock { .. } => "/vsock"@,
        ApiView::InstanceStart => "/actions"@,
        ApiView::Pause | ApiView::Resume => "/vm"@,
        ApiView::CreateSnapshot { .. } => "/snapshot/create"@,
        ApiView::LoadSnapshot { .. } => "/snapshot/load"@,
    }
}

pub open spec fn api_fields(call: ApiView) -> Seq<(Seq<char>, JsonView)> {
    match call {
        ApiView::MachineConfig { cpu_count, memory_mb } => seq![
            ("vcpu_count"@, JsonView::Number(decimal(cpu_count as nat))),
            ("mem_size_mib"@, JsonView::Number(decimal(memory_mb as nat))),
            ("smt"@, JsonView::Bool(false)),
        ],
        ApiView::BootSource { kernel } => seq![
            ("kernel_image_path"@, JsonView::Text(kernel)),
            ("boot_args"@, JsonView::Text(BOOT_ARGS@)),
        ],
        ApiView::RootDrive { rootfs } => seq![
            ("drive_id"@, JsonView::Text("rootfs"@)),
            ("path_on_host"@, JsonView::Text(rootfs)),
            ("is_root_device"@, JsonView::Bool(true)),
            ("is_read_only"@, JsonView::Bool(false)),
        ],
        ApiView::Vsock { cid, socket } => seq![
            ("guest_cid"@, JsonView::Number(decimal(cid as nat))),
            ("uds_path"@, JsonView::Text(socket)),
        ],
        ApiView::InstanceStart => seq![("action_type"@, JsonView::Text("InstanceStart"@))],
        ApiView::Pause => seq![("state"@, JsonView::Text("Paused"@))],
        ApiView::Resume => seq![("state"@, JsonView::Text("Resumed"@))],
        ApiView::CreateSnapshot { state, memory } => seq![
            ("snapshot_type"@, JsonView::Text("Full"@)),
            ("snapshot_path"@, JsonView::Text(state)),
            ("mem_file_path"@, JsonView::Text(memory)),
        ],
        ApiView::LoadSnapshot { state, memory } => seq![
            ("snapshot_path"@, JsonView::Text(state)),
            (
                "mem_backend"@,
                JsonView::Object(
                    seq![
                        ("backend_type"@, JsonView::Text("File"@)),
                        ("backend_path"@, JsonView::Text(memory)),
                    ],
                ),
            ),
            ("enable_diff_snapshots"@, JsonView::Bool(true)),
            ("resume_vm"@, JsonView::Bool(true)),
        ],
    }
}

fn put(fields: &mut Vec<(String, Json)>, key: &str, value: Json)
    ensures
        fields_view(final(fields)@) == fields_view(old(fields)@).push((key@, value@)),
{
    let field = (key.to_owned(), value);
    proof {
        lemma_fields_push(fields@, field);
    }
    fields.push(field);
}

fn text(s: &str) -> (r: Json)
    ensures
        r@ == JsonView::Text(s@),
{
    Json::Text(s.to_owned())
}

fn number(n: u32) -> (r: Json)
    ensures
        r@ == JsonView::Number(decimal(n as nat)),
{
    Json::Number(decimal_of(n as u64))
}

impl ApiCall {
    pub fn method(&self) -> (r: &'static str)
        ensures
            r@ == api_method(self@),
    {
        match self {
            ApiCall::Pause | ApiCall::Resume => "PATCH",
            _ => "PUT",
        }
    }

    pub fn path(&self) -> (r: &'static str)
        ensures
            r@ == api_path(self@),
    {
        match self {
            ApiCall::MachineConfig { .. } => "/machine-config",
            ApiCall::BootSource { .. } => "/boot-source",
            ApiCall::RootDrive { .. } => "/drives/rootfs",
            ApiCall::Vsock { .. } => "/vsock",
            ApiCall::InstanceStart => "/actions",
            ApiCall::Pause | ApiCall::Resume => "/vm",
            ApiCall::CreateSnapshot { .. } => "/snapshot/create",
            ApiCall::LoadSnapshot { .. } => "/snapshot/load",
        }
    }

    /// The fields of the object that is sent along.
    pub fn fields(&self) -> (r: Vec<(String, Json)>)
        ensures
            fields_view(r@) == api_fields(self@),
    {
        let mut fields: Vec<(String, Json)> = Vec::new();
        assert(fields_view(fields@) =~= seq![]);
        match self {
            ApiCall::MachineConfig { cpu_count, memory_mb } => {
                put(&mut fields, "vcpu_count", number(*cpu_count as u32));
                put(&mut fields, "mem_size_mib", number(*memory_mb));
                put(&mut fields, "smt", Json::Bool(false));
            },
            ApiCall::BootSource { kernel } => {
                put(&mut fields, "kernel_image_path", text(kernel.as_str()));
                put(&mut fields, "boot_args", text(BOOT_ARGS));
            },
            ApiCall::RootDrive { rootfs } => {
                put(&mut fields, "drive_id", text("rootfs"));
                put(&mut fields, "path_on_host", text(rootfs.as_str()));
                put(&mut fields, "is_root_device", Json::Bool(true));
                put(&mut fields, "is_read_only", Json::Bool(false));
            },
            ApiCall::Vsock { cid, socket } => {
                put(&mut fields, "guest_cid", number(*cid));
                put(&mut fields, "uds_path", text(socket.as_str()));
            },
            ApiCall::InstanceStart => {
                put(&mut fields, "action_type", text("InstanceStart"));
            },
            ApiCall::Pause => {
                put(&mut fields, "state", text("Paused"));
            },
            ApiCall::Resume => {
                put(&mut fields, "state", text("Resumed"));
            },
            ApiCall::CreateSnapshot { state, memory } => {
                put(&mut fields, "snapshot_type", text("Full"));
                put(&mut fields, "snapshot_path", text(state.as_str()));
                put(&mut fields, "mem_file_path", text(memory.as_str()));
            },
            ApiCall::LoadSnapshot { state, memory } => {
                let mut inner: Vec<(String, Json)> = Vec::new();
                assert(fields_view(inner@) =~= seq![]);
                put(&mut inner, "backend_type", text("File"));
                put(&mut inner, "backend_path", text(memory.as_str()));
                assert(fields_view(inner@) =~= seq![
                    ("backend_type"@, JsonView::Text("File"@)),
                    ("backend_path"@, JsonView::Text(memory@)),
                ]);
                put(&mut fields, "snapshot_path", text(state.as_str()));
                put(&mut fields, "mem_backend", Json::Object(inner));
                put(&mut fields, "enable_diff_snapshots", Json::Bool(true));
                put(&mut fields, "resume_vm", Json::Bool(true));
            },
        }
        assert(fields_view(fields@) =~= api_fields(self@));
        fields
    }

    /// The request as it is written to Firecracker's socket.
    pub fn request_text(&self) -> (r: String)
        ensures
            r@ == request_with(self@, object_text(api_fields(self@))),
    {
        let body = encode_object(&self.fields());
        self.request_for(body.as_str())
    }

    /// The request with this body.
    pub fn request_for(&self, body: &str) -> (r: String)
        ensures
            r@ == request_with(self@, body@),
    {
        let mut out = request_head(self.method(), self.path(), body.as_bytes().len());
        out.push_str(body);
        out
    }
}

// ---------------------------------------------------------------------------
// The exchange with Firecracker
// ---------------------------------------------------------------------------
/// The head of a request.
pub open spec fn head_text(method: Seq<char>, path: Seq<char>, length: nat) -> Seq<char> {
    method + " "@ + path
        + " HTTP/1.1\r\nHost: localhost\r\nContent-Type: application/json\r\nContent-Length: "@
        + decimal(length) + "\r\nConnection: close\r\n\r\n"@
}

/// A request with its body.
pub open spec fn request_with(call: ApiView, body: Seq<char>) -> Seq<char> {
    head_text(api_method(call), api_path(call), encode_utf8(body).len()) + body
}

pub fn request_head(method: &str, path: &str, length: usize) -> (r: String)
    ensures
        r@ == head_text(method@, path@, length as nat),
{
    let mut out: String = method.to_owned();
    out.push_str(" ");
    out.push_str(path);
    out.push_str(
        " HTTP/1.1\r\nHost: localhost\r\nContent-Type: application/json\r\nContent-Length: ",
    );
    push_decimal(&mut out, length as u64);
    out.push_str("\r\nConnection: close\r\n\r\n");
    out
}

/// Whether a response head has been read to its end: no more is waited for.
pub open spec fn head_ends(bytes: Seq<u8>) -> bool {
    let n = bytes.len() as int;
    n >= 4 && bytes[n - 4] == 13 && bytes[n - 3] == 10 && bytes[n - 2] == 13 && bytes[n - 1] == 10
}

/// Whether another byte of a response head is read; an error where it is too long.
pub fn wants_more(head: &Vec<u8>) -> (r: Result<bool, RuntimeError>)
    ensures
        if head_ends(head@) {
            r == Ok::<bool, RuntimeError>(false)
        } else if head@.len() >= MAX_HEAD_BYTES {
            r matches Err(e) && e@ == RuntimeErrorView::Backend(
                "Firecracker response headers exceed 16 KiB"@,
            )
        } else {
            r == Ok::<bool, RuntimeError>(true)
        },
{
    let n = head.len();
    if n >= 4 && head[n - 4] == 13 && head[n - 3] == 10 && head[n - 2] == 13 && head[n - 1] == 10 {
        Ok(false)
    } else if n >= MAX_HEAD_BYTES {
        Err(RuntimeError::Backend("Firecracker response headers exceed 16 KiB".to_owned()))
    } else {
        Ok(true)
    }
}

/// The first line of a response.
pub open spec fn status_line(text: Seq<char>) -> Seq<char> {
    if lines(text).len() > 0 {
        lines(text)[0]
    } else {
        ""@
    }
}

/// Whether a status line reports success.
pub open spec fn succeeds(status: Seq<char>) -> bool {
    has_sub(status, " 200 "@) || has_sub(status, " 204 "@)
}

pub open spec fn api_failure(method: Seq<char>, path: Seq<char>, status: Seq<char>) -> Seq<char> {
    "Firecracker "@ + method + " "@ + path + " failed: "@ + status
}

fn has_text(s: &[char], p: &str) -> (b: bool)
    ensures
        b == has_sub(s@, p@),
{
    let word = chars_of(p);
    proof {
        lemma_find_sub(s@, p@);
    }
    find(s, word.as_slice()).is_some()
}

/// What the text of a response means.
pub fn read_status(method: &str, path: &str, text: &str) -> (r: Result<(), RuntimeError>)
    ensures
        if succeeds(status_line(text@)) {
            r is Ok
        } else {
            r matches Err(e) && e@ == RuntimeErrorView::Backend(
                api_failure(method@, path@, status_line(text@)),
            )
        },
{
    let chars = chars_of(text);
    let all = lines_of(chars.as_slice());
    assert(texts(all@).len() == all@.len());
    let status: String = if all.len() > 0 {
        assert(texts(all@)[0] == all@[0]@);
        all[0].clone()
    } else {
        "".to_owned()
    };
    let line = chars_of(status.as_str());
    if has_text(line.as_slice(), " 200 ") || has_text(line.as_slice(), " 204 ") {
        return Ok(());
    }
    let mut message: String = "Firecracker ".to_owned();
    message.push_str(method);
    message.push_str(" ");
    message.push_str(path);
    message.push_str(" failed: ");
    message.push_str(status.as_str());
    Err(RuntimeError::Backend(message))
}

/// What the bytes of a response mean.
pub fn check_response(method: &str, path: &str, head: &Vec<u8>) -> (r: Result<(), RuntimeError>)
    ensures
        if succeeds(status_line(lossy_text(head@))) {
            r is Ok
        } else {
            r matches Err(e) && e@ == RuntimeErrorView::Backend(
                api_failure(method@, path@, status_line(lossy_text(head@))),
            )
        },
{
    let text = decode_lossy(head.as_slice());
    read_status(method, path, text.as_str())
}

// ---------------------------------------------------------------------------
// The exchange with the agent
// ---------------------------------------------------------------------------
/// What is asked of the socket before the agent is spoken to.
pub fn connect_line(port: u32) -> (r: String)
    ensures
        r@ == "CONNECT "@ + decimal(port as nat) + "\n"@,
{
    let mut out: String = "CONNECT ".to_owned();
    push_decimal(&mut out, port as u64);
    out.push_str("\n");
    out
}

pub open spec fn begins_ok(line: Seq<u8>) -> bool {
    line.len() >= 3 && line[0] == 79 && line[1] == 75 && line[2] == 32
}

/// Whether the socket let us through.
pub fn check_handshake(line: &Vec<u8>) -> (r: Result<(), RuntimeError>)
    ensures
        if begins_ok(line@) {
            r is Ok
        } else {
            r matches Err(e) && e@ == RuntimeErrorView::Backend(
                "vsock handshake failed: "@ + lossy_text(line@),
            )
        },
{
    if line.len() >= 3 && line[0] == 79 && line[1] == 75 && line[2] == 32 {
        Ok(())
    } else {
        let mut message: String = "vsock handshake failed: ".to_owned();
        let text = decode_lossy(line.as_slice());
        message.push_str(text.as_str());
        Err(RuntimeError::Backend(message))
    }
}

/// Whether another byte of a line may be read.
pub fn may_read(line: &Vec<u8>, cap: usize) -> (r: Result<(), RuntimeError>)
    ensures
        if line@.len() >= cap {
            r matches Err(e) && e@ == RuntimeErrorView::Backend("agent frame exceeds limit"@)
        } else {
            r is Ok
        },
{
    if line.len() >= cap {
        Err(RuntimeError::Backend("agent frame exceeds limit".to_owned()))
    } else {
        Ok(())
    }
}

/// Takes the next byte of a line; true once the line has ended.
pub fn take_byte(line: &mut Vec<u8>, byte: u8) -> (ended: bool)
    ensures
        ended == (byte == 10),
        final(line)@ == if byte == 10 {
            old(line)@
        } else {
            old(line)@.push(byte)
        },
{
    if byte == 10 {
        true
    } else {
        line.push(byte);
        false
    }
}

/// An answer that was not expected. `described` is how it is printed.
pub open spec fn unexpected(response: AgentResponse, described: Seq<char>) -> RuntimeErrorView {
    RuntimeErrorView::Backend(
        match response {
            AgentResponse::Error { code, message } => "agent "@ + code@ + ": "@ + message@,
            _ => "unexpected agent response: "@ + described,
        },
    )
}

pub fn agent_response_error(response: &AgentResponse, described: &str) -> (r: RuntimeError)
    ensures
        r@ == unexpected(*response, described@),
{
    match response {
        AgentResponse::Error { code, message } => {
            let mut out: String = "agent ".to_owned();
            out.push_str(code.as_str());
            out.push_str(": ");
            out.push_str(message.as_str());
            RuntimeError::Backend(out)
        },
        _ => {
            let mut out: String = "unexpected agent response: ".to_owned();
            out.push_str(described);
            RuntimeError::Backend(out)
        },
    }
}

pub fn expect_empty(response: AgentResponse, described: &str) -> (r: Result<(), RuntimeError>)
    ensures
        match response {
            AgentResponse::Empty => r is Ok,
            _ => r matches Err(e) && e@ == unexpected(response, described@),
        },
{
    match response {
        AgentResponse::Empty => Ok(()),
        other => Err(agent_response_error(&other, described)),
    }
}

pub fn expect_command(response: AgentResponse, described: &str) -> (r: Result<
    CommandResult,
    RuntimeError,
>)
    ensures
        match response {
            AgentResponse::Command(c) => r == Ok::<CommandResult, RuntimeError>(c),
            _ => r matches Err(e) && e@ == unexpected(response, described@),
        },
{
    match response {
        AgentResponse::Command(c) => Ok(c),
        other => Err(agent_response_error(&other, described)),
    }
}

pub fn expect_bytes(response: AgentResponse, described: &str) -> (r: Result<Vec<u8>, RuntimeError>)
    ensures
        match response {
            AgentResponse::Bytes(b) => r == Ok::<Vec<u8>, RuntimeError>(b),
            _ => r matches Err(e) && e@ == unexpected(response, described@),
        },
{
    match response {
        AgentResponse::Bytes(b) => Ok(b),
        other => Err(agent_response_error(&other, described)),
    }
}

pub fn expect_entries(response: AgentResponse, described: &str) -> (r: Result<
    Vec<FileEntry>,
    RuntimeError,
>)
    ensures
        match response {
            AgentResponse::Entries(v) => r == Ok::<Vec<FileEntry>, RuntimeError>(v),
            _ => r matches Err(e) && e@ == unexpected(response, described@),
        },
{
    match response {
        AgentResponse::Entries(v) => Ok(v),
        other => Err(agent_response_error(&other, described)),
    }
}

/// What is done while the API socket or the agent is waited for.
#[derive(Debug)]
pub enum Readiness {
    Ready,
    /// Ask again after this many milliseconds.
    Wait { ms: u64 },
    GiveUp(RuntimeError),
}

/// Whether the answer to the question whether the agent is ready says so, in the
/// version that is spoken here.
pub open spec fn is_ready(answer: Option<AgentResponse>) -> bool {
    answer matches Some(AgentResponse::Ready { version }) && version == PROTOCOL_VERSION
}

/// Reads the answer to the question whether the agent is ready. There is none
/// where the question failed; `described` is how what came back is printed.
pub fn readiness(answer: &Option<AgentResponse>, in_time: bool, described: &str) -> (r: Readiness)
    ensures
        if is_ready(*answer) {
            r is Ready
        } else if in_time {
            r == (Readiness::Wait { ms: 25 })
        } else {
            r matches Readiness::GiveUp(e) && e@ == RuntimeErrorView::Backend(
                "agentd did not become ready: "@ + described@,
            )
        },
{
    let ready = match answer {
        Some(AgentResponse::Ready { version }) => *version == PROTOCOL_VERSION,
        _ => false,
    };
    if ready {
        Readiness::Ready
    } else if in_time {
        Readiness::Wait { ms: 25 }
    } else {
        let mut out: String = "agentd did not become ready: ".to_owned();
        out.push_str(described);
        Readiness::GiveUp(RuntimeError::Backend(out))
    }
}

/// Decides what a look at the API socket means. Once the time is up nobody looks, and
/// it does not matter whether the socket is there.
pub fn socket_step(in_time: bool, found: bool) -> (r: Readiness)
    ensures
        if !in_time {
            r matches Readiness::GiveUp(e) && e@ == RuntimeErrorView::Backend(
                "Firecracker API socket did not become ready"@,
            )
        } else if found {
            r is Ready
        } else {
            r == (Readiness::Wait { ms: 10 })
        },
{
    if !in_time {
        Readiness::GiveUp(
            RuntimeError::Backend("Firecracker API socket did not become ready".to_owned()),
        )
    } else if found {
        Readiness::Ready
    } else {
        Readiness::Wait { ms: 10 }
    }
}

} // verus!
