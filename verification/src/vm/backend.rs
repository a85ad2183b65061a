//! What carries a sandbox out.

use crate::types::{CommandRequest, CommandResult, CreateSandboxRequest, FileEntry};
use crate::vm::error::{RuntimeError, RuntimeErrorView};
use vstd::prelude::*;

verus! {

#[derive(Debug)]
pub struct BackendSnapshot {
    pub size_bytes: u64,
}

/// A call of a backend's method, with its arguments.
pub enum BackendCall {
    Start,
    Pause,
    Resume,
    Stop,
    Destroy,
    Run(CommandRequest),
    Kill(Seq<char>),
    Read(Seq<char>, u64),
    Write(Seq<char>, Seq<u8>),
    List(Seq<char>),
    Remove(Seq<char>, bool),
    Snapshot(Seq<char>),
}

/// What a call came back with.
pub enum BackendReply {
    Done,
    Command(CommandResult),
    Bytes(Seq<u8>),
    Entries(Seq<FileEntry>),
    Saved(u64),
    Failed(RuntimeErrorView),
}

pub open spec fn done_reply(r: Result<(), RuntimeError>) -> BackendReply {
    match r {
        Ok(_) => BackendReply::Done,
        Err(e) => BackendReply::Failed(e@),
    }
}

pub open spec fn command_reply(r: Result<CommandResult, RuntimeError>) -> BackendReply {
    match r {
        Ok(c) => BackendReply::Command(c),
        Err(e) => BackendReply::Failed(e@),
    }
}

pub open spec fn bytes_reply(r: Result<Vec<u8>, RuntimeError>) -> BackendReply {
    match r {
        Ok(b) => BackendReply::Bytes(b@),
        Err(e) => BackendReply::Failed(e@),
    }
}

pub open spec fn entries_reply(r: Result<Vec<FileEntry>, RuntimeError>) -> BackendReply {
    match r {
        Ok(v) => BackendReply::Entries(v@),
        Err(e) => BackendReply::Failed(e@),
    }
}

pub open spec fn saved_reply(r: Result<BackendSnapshot, RuntimeError>) -> BackendReply {
    match r {
        Ok(s) => BackendReply::Saved(s.size_bytes),
        Err(e) => BackendReply::Failed(e@),
    }
}

/// One sandbox, whatever it is made of.
pub trait SandboxBackend: Sized {
    /// What a call may do to a backend and come back with. A backend that makes no
    /// promise leaves everything open.
    open spec fn step(before: Self, call: BackendCall, after: Self, reply: BackendReply) -> bool {
        true
    }

    fn start(&mut self) -> (r: Result<(), RuntimeError>)
        ensures
            Self::step(*old(self), BackendCall::Start, *final(self), done_reply(r)),
    ;

    fn pause(&mut self) -> (r: Result<(), RuntimeError>)
        ensures
            Self::step(*old(self), BackendCall::Pause, *final(self), done_reply(r)),
    ;

    fn resume(&mut self) -> (r: Result<(), RuntimeError>)
        ensures
            Self::step(*old(self), BackendCall::Resume, *final(self), done_reply(r)),
    ;

    fn stop(&mut self) -> (r: Result<(), RuntimeError>)
        ensures
            Self::step(*old(self), BackendCall::Stop, *final(self), done_reply(r)),
    ;

    fn destroy(&mut self) -> (r: Result<(), RuntimeError>)
        ensures
            Self::step(*old(self), BackendCall::Destroy, *final(self), done_reply(r)),
    ;

    fn run_command(&mut self, request: CommandRequest) -> (r: Result<CommandResult, RuntimeError>)
        ensures
            Self::step(*old(self), BackendCall::Run(request), *final(self), command_reply(r)),
    ;

    fn kill_command(&mut self, command_id: &str) -> (r: Result<(), RuntimeError>)
        ensures
            Self::step(*old(self), BackendCall::Kill(command_id@), *final(self), done_reply(r)),
    ;

    fn read_file(&self, path: &str, max_bytes: u64) -> (r: Result<Vec<u8>, RuntimeError>)
        ensures
            Self::step(*self, BackendCall::Read(path@, max_bytes), *self, bytes_reply(r)),
    ;

    fn write_file(&mut self, path: &str, data: &[u8]) -> (r: Result<(), RuntimeError>)
        ensures
            Self::step(*old(self), BackendCall::Write(path@, data@), *final(self), done_reply(r)),
    ;

    fn list_dir(&self, path: &str) -> (r: Result<Vec<FileEntry>, RuntimeError>)
        ensures
            Self::step(*self, BackendCall::List(path@), *self, entries_reply(r)),
    ;

    fn remove(&mut self, path: &str, recursive: bool) -> (r: Result<(), RuntimeError>)
        ensures
            Self::step(
                *old(self),
                BackendCall::Remove(path@, recursive),
                *final(self),
                done_reply(r),
            ),
    ;

    fn snapshot(&mut self, snapshot_id: &str) -> (r: Result<BackendSnapshot, RuntimeError>)
        ensures
            Self::step(
                *old(self),
                BackendCall::Snapshot(snapshot_id@),
                *final(self),
                saved_reply(r),
            ),
    ;
}

/// Makes the backends of new sandboxes.
pub trait SandboxBackendFactory: Sized {
    type Backend: SandboxBackend;

    /// What a request for a backend may come back with. A factory that makes no
    /// promise leaves everything open.
    open spec fn made(
        self,
        sandbox_id: Seq<char>,
        request: CreateSandboxRequest,
        made: Result<Self::Backend, RuntimeErrorView>,
    ) -> bool {
        true
    }

    fn create(&self, sandbox_id: &str, request: &CreateSandboxRequest) -> (r: Result<
        Self::Backend,
        RuntimeError,
    >)
        ensures
            self.made(
                sandbox_id@,
                *request,
                match r {
                    Ok(b) => Ok(b),
                    Err(e) => Err(e@),
                },
            ),
    ;
}

} // verus!
