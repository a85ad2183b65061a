//! Sandboxes that live in memory and run nothing.

use crate::table::Table;
use crate::text::{chars_of, copy_bytes, join, joined, matches_at, starts_with, texts};
use crate::types::{
    is_id, new_id, now_ms, CommandRequest, CommandResult, CreateSandboxRequest, FileEntry,
};
use crate::vm::backend::{
    BackendCall, BackendReply, BackendSnapshot, SandboxBackend, SandboxBackendFactory,
};
use crate::vm::error::{RuntimeError, RuntimeErrorView};
use vstd::prelude::*;
use vstd::utf8::encode_utf8;

verus! {

#[derive(Clone, Copy, Debug)]
pub struct InMemoryBackendFactory;

#[derive(Debug)]
pub struct InMemoryBackend {
    pub running: bool,
    pub files: Table<Vec<u8>>,
}

/// The files' contents.
pub open spec fn contents(m: Map<Seq<char>, Vec<u8>>) -> Map<Seq<char>, Seq<u8>> {
    Map::new(|k: Seq<char>| m.dom().contains(k), |k: Seq<char>| m[k]@)
}

/// The bytes in all files together.
pub open spec fn total_size(files: Seq<(String, Vec<u8>)>) -> nat
    decreases files.len(),
{
    if files.len() == 0 {
        0
    } else {
        total_size(files.drop_last()) + files.last().1@.len()
    }
}

/// The files whose path begins with a text.
pub open spec fn below(files: Seq<(String, Vec<u8>)>, path: Seq<char>) -> Seq<(String, Vec<u8>)>
    decreases files.len(),
{
    if files.len() == 0 {
        seq![]
    } else if starts_with(files.last().0@, path) {
        below(files.drop_last(), path).push(files.last())
    } else {
        below(files.drop_last(), path)
    }
}

/// The entry is that of a file.
pub open spec fn lists(entry: FileEntry, file: (String, Vec<u8>)) -> bool {
    &&& entry.path@ == file.0@
    &&& entry.kind@ == "file"@
    &&& entry.size == file.1@.len()
}

/// What an echoed command comes back with.
pub open spec fn echoes(c: CommandResult, request: CommandRequest) -> bool {
    &&& is_id(c.command_id@, "cmd"@)
    &&& c.exit_code == Some(0i32)
    &&& c.stdout@ == encode_utf8(joined(texts(request.command@), " "@))
    &&& c.stderr@ == Seq::<u8>::empty()
    &&& c.duration_ms == 0
    &&& !c.timed_out
}

impl InMemoryBackend {
    pub fn new() -> (r: Self)
        ensures
            !r.running,
            contents(r.files@) == Map::<Seq<char>, Seq<u8>>::empty(),
    {
        let files: Table<Vec<u8>> = Table::new();
        assert(contents(files@) =~= Map::<Seq<char>, Seq<u8>>::empty());
        InMemoryBackend { running: false, files }
    }
}

impl SandboxBackendFactory for InMemoryBackendFactory {
    type Backend = InMemoryBackend;

    open spec fn made(
        self,
        sandbox_id: Seq<char>,
        request: CreateSandboxRequest,
        made: Result<InMemoryBackend, RuntimeErrorView>,
    ) -> bool {
        made matches Ok(b) && !b.running && contents(b.files@) == Map::<Seq<char>, Seq<u8>>::empty()
    }

    fn create(&self, sandbox_id: &str, request: &CreateSandboxRequest) -> (r: Result<
        InMemoryBackend,
        RuntimeError,
    >) {
        Ok(InMemoryBackend::new())
    }
}

impl SandboxBackend for InMemoryBackend {
    open spec fn step(
        before: InMemoryBackend,
        call: BackendCall,
        after: InMemoryBackend,
        reply: BackendReply,
    ) -> bool {
        let files = contents(before.files@);
        match call {
            BackendCall::Start | BackendCall::Resume => {
                &&& after.running && after.files == before.files
                &&& reply is Done
            },
            BackendCall::Pause | BackendCall::Stop => {
                &&& !after.running && after.files == before.files
                &&& reply is Done
            },
            BackendCall::Destroy => {
                &&& !after.running
                &&& contents(after.files@) == Map::<Seq<char>, Seq<u8>>::empty()
                &&& reply is Done
            },
            BackendCall::Run(request) => {
                &&& after == before
                &&& reply matches BackendReply::Command(c) && echoes(c, request)
            },
            BackendCall::Kill(_) => after == before && reply is Done,
            BackendCall::Read(path, max_bytes) => {
                &&& after == before
                &&& reply == if !files.dom().contains(path) {
                    BackendReply::Failed(RuntimeErrorView::NotFound)
                } else if files[path].len() > max_bytes {
                    BackendReply::Failed(RuntimeErrorView::Invalid("file exceeds read limit"@))
                } else {
                    BackendReply::Bytes(files[path])
                }
            },
            BackendCall::Write(path, data) => {
                &&& after.running == before.running
                &&& contents(after.files@) == files.insert(path, data)
                &&& reply is Done
            },
            BackendCall::List(path) => {
                &&& after == before
                &&& reply matches BackendReply::Entries(entries) && entries.len() == below(
                    before.files.order(),
                    path,
                ).len() && forall|i: int|
                    0 <= i < entries.len() ==> lists(
                        #[trigger] entries[i],
                        below(before.files.order(), path)[i],
                    )
            },
            BackendCall::Remove(path, _) => {
                &&& after.running == before.running
                &&& contents(after.files@) == files.remove(path)
                &&& reply is Done
            },
            BackendCall::Snapshot(_) => {
                &&& after == before
                &&& reply matches BackendReply::Saved(size) && size == if total_size(
                    before.files.order(),
                ) > u64::MAX {
                    u64::MAX as nat
                } else {
                    total_size(before.files.order())
                }
            },
        }
    }

    fn start(&mut self) -> (r: Result<(), RuntimeError>) {
        self.running = true;
        Ok(())
    }

    fn pause(&mut self) -> (r: Result<(), RuntimeError>) {
        self.running = false;
        Ok(())
    }

    fn resume(&mut self) -> (r: Result<(), RuntimeError>) {
        self.running = true;
        Ok(())
    }

    fn stop(&mut self) -> (r: Result<(), RuntimeError>) {
        self.running = false;
        Ok(())
    }

    fn destroy(&mut self) -> (r: Result<(), RuntimeError>) {
        self.running = false;
        self.files = Table::new();
        assert(contents(self.files@) =~= Map::<Seq<char>, Seq<u8>>::empty());
        Ok(())
    }

    fn run_command(&mut self, request: CommandRequest) -> (r: Result<CommandResult, RuntimeError>) {
        let text = join(&request.command, " ");
        let stdout = copy_bytes(text.as_str().as_bytes());
        Ok(
            CommandResult {
                command_id: new_id("cmd"),
                exit_code: Some(0),
                stdout,
                stderr: Vec::new(),
                duration_ms: 0,
                timed_out: false,
            },
        )
    }

    fn kill_command(&mut self, command_id: &str) -> (r: Result<(), RuntimeError>) {
        Ok(())
    }

    fn read_file(&self, path: &str, max_bytes: u64) -> (r: Result<Vec<u8>, RuntimeError>) {
        match self.files.get(path) {
            None => Err(RuntimeError::NotFound),
            Some(data) => {
                if data.len() as u64 > max_bytes {
                    Err(RuntimeError::Invalid("file exceeds read limit".to_owned()))
                } else {
                    Ok(copy_bytes(data.as_slice()))
                }
            },
        }
    }

    fn write_file(&mut self, path: &str, data: &[u8]) -> (r: Result<(), RuntimeError>) {
        let copy = copy_bytes(data);
        self.files.insert(path.to_owned(), copy);
        assert(contents(self.files@) =~= contents(old(self).files@).insert(path@, data@));
        Ok(())
    }

    fn list_dir(&self, path: &str) -> (r: Result<Vec<FileEntry>, RuntimeError>) {
        let prefix = chars_of(path);
        let n = self.files.len();
        let ghost all = self.files.order();
        let mut entries: Vec<FileEntry> = Vec::new();
        for i in 0..n
            invariant
                n == all.len(),
                all == self.files.order(),
                prefix@ == path@,
                entries@.len() == below(all.take(i as int), path@).len(),
                forall|j: int|
                    0 <= j < entries@.len() ==> lists(
                        #[trigger] entries@[j],
                        below(all.take(i as int), path@)[j],
                    ),
        {
            let (name, data) = self.files.at(i);
            assert(all.take(i + 1).drop_last() =~= all.take(i as int));
            let chars = chars_of(name.as_str());
            if matches_at(chars.as_slice(), prefix.as_slice(), 0) {
                entries.push(
                    FileEntry {
                        path: name.clone(),
                        kind: "file".to_owned(),
                        size: data.len() as u64,
                        modified_at_ms: now_ms(),
                    },
                );
            }
        }
        assert(all.take(n as int) =~= all);
        Ok(entries)
    }

    fn remove(&mut self, path: &str, recursive: bool) -> (r: Result<(), RuntimeError>) {
        self.files.remove(path);
        assert(contents(self.files@) =~= contents(old(self).files@).remove(path@));
        Ok(())
    }

    fn snapshot(&mut self, snapshot_id: &str) -> (r: Result<BackendSnapshot, RuntimeError>) {
        let n = self.files.len();
        let ghost all = self.files.order();
        let mut size: u64 = 0;
        for i in 0..n
            invariant
                n == all.len(),
                all == self.files.order(),
                *self == *old(self),
                size == if total_size(all.take(i as int)) > u64::MAX {
                    u64::MAX as nat
                } else {
                    total_size(all.take(i as int))
                },
        {
            assert(all.take(i + 1).drop_last() =~= all.take(i as int));
            let (name, data) = self.files.at(i);
            size = size.saturating_add(data.len() as u64);
        }
        assert(all.take(n as int) =~= all);
        Ok(BackendSnapshot { size_bytes: size })
    }
}

/// A file reads as it was last written.
pub proof fn law_read_gives_back_what_was_written(
    before: InMemoryBackend,
    path: Seq<char>,
    data: Seq<u8>,
    between: InMemoryBackend,
    max_bytes: u64,
    after: InMemoryBackend,
    reply: BackendReply,
)
    requires
        InMemoryBackend::step(
            before,
            BackendCall::Write(path, data),
            between,
            BackendReply::Done,
        ),
        InMemoryBackend::step(between, BackendCall::Read(path, max_bytes), after, reply),
    ensures
        reply == if data.len() > max_bytes {
            BackendReply::Failed(RuntimeErrorView::Invalid("file exceeds read limit"@))
        } else {
            BackendReply::Bytes(data)
        },
{
}

/// Writing or removing one file leaves the others as they are.
pub proof fn law_other_files_are_untouched(
    before: InMemoryBackend,
    call: BackendCall,
    after: InMemoryBackend,
    reply: BackendReply,
    path: Seq<char>,
    other: Seq<char>,
)
    requires
        InMemoryBackend::step(before, call, after, reply),
        match call {
            BackendCall::Write(p, _) => p == path,
            BackendCall::Remove(p, _) => p == path,
            _ => false,
        },
        other != path,
    ensures
        contents(after.files@).dom().contains(other) <==> contents(before.files@).dom().contains(
            other,
        ),
        contents(before.files@).dom().contains(other) ==> contents(after.files@)[other] == contents(
            before.files@,
        )[other],
{
}

/// Files outlive a pause, a stop and a start.
pub proof fn law_files_survive_a_pause(
    before: InMemoryBackend,
    call: BackendCall,
    after: InMemoryBackend,
    reply: BackendReply,
)
    requires
        InMemoryBackend::step(before, call, after, reply),
        call is Start || call is Pause || call is Resume || call is Stop,
    ensures
        contents(after.files@) == contents(before.files@),
{
}

} // verus!
