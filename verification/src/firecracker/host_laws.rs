//! What the host has to have, and what it is told to do.

use crate::firecracker::api::{api_method, api_path, begins_ok, request_with, succeeds, ApiView};
use crate::firecracker::machine::{fails_to_start, FailedStart, StartStage};
use crate::firecracker::paths::{joined_path, path_hash, FirecrackerConfig};
use crate::firecracker::plan::{
    paused_files, preflight_steps, recovers, sizes_to, template_of, Recovery,
};
use crate::firecracker::steps::StepView;
use crate::text::{decimal, ends_with, has_sub, occurs_at, starts_with};
use crate::types::SandboxState;
use crate::vm::error::{error_text, RuntimeError};
use vstd::prelude::*;
use vstd::utf8::encode_utf8;

verus! {

/// A disk is grown to as many mebibytes as were asked for, and never shrunk.
pub proof fn law_disks_are_never_shrunk(
    current: u64,
    disk_mb: u32,
    r: Result<Option<u64>, RuntimeError>,
)
    requires
        sizes_to(current, disk_mb, r),
    ensures
        r matches Ok(Some(size)) ==> size > current && size == 0x10_0000 * disk_mb,
        r == Ok::<Option<u64>, RuntimeError>(None) <==> current == 0x10_0000 * disk_mb,
        r is Err <==> current > 0x10_0000 * disk_mb,
{
}

/// A sandbox wakes from its pause exactly where all the files of the pause are there; one
/// that was paused and has lost a file is refused, and the error names a file that is
/// missing. Only a running one is started at once.
pub proof fn law_paused_sandboxes_need_their_files(
    dir: Seq<char>,
    id: Seq<char>,
    state: SandboxState,
    found: Seq<bool>,
    r: Recovery,
)
    requires
        found.len() == 3,
        recovers(dir, id, state, found, r),
    ensures
        r.wakes <==> forall|i: int| 0 <= i < 3 ==> #[trigger] found[i],
        r.start <==> state is Running,
        r.refusal is Some <==> state is Paused && exists|i: int| 0 <= i < 3 && !#[trigger] found[i],
        r.refusal matches Some(e) ==> exists|i: int|
            0 <= i < 3 && !#[trigger] found[i] && has_sub(error_text(e@), paused_files(dir)[i]),
{
    let all = forall|i: int| 0 <= i < 3 ==> #[trigger] found[i];
    assert(all <==> found[0] && found[1] && found[2]);
    if let Some(e) = r.refusal {
        let k = crate::firecracker::plan::first_missing(found);
        let path = paused_files(dir)[k];
        assert(!found[k]);
        let front = "cannot recover paused sandbox "@ + id + ": "@;
        let text = error_text(e@);
        assert(text == front + path + " is missing"@);
        assert(text.subrange(front.len() as int, (front.len() + path.len()) as int) =~= path);
        assert(occurs_at(text, path, front.len() as int));
    }
}

/// The step demands that the file is there.
pub open spec fn demands(steps: Seq<StepView>, path: Seq<char>) -> bool {
    exists|i: int| 0 <= i < steps.len() && (#[trigger] steps[i] matches StepView::Require { path: p, .. })
        && steps[i]->Require_path == path
}

/// Before anything is made, the programs, the kernel, the disk and the virtualization of the
/// host are checked for; other systems, a port that the agent does not listen on and a setup
/// without a jailer are refused.
pub proof fn law_hosts_are_checked_first(config: FirecrackerConfig, linux: bool)
    ensures
        ({
            let steps = preflight_steps(config, linux);
            let fit = linux && config.agent_vsock_port == 10000;
            &&& !fit ==> steps.len() == 1 && steps[0] is Refuse
            &&& fit ==> demands(steps, config.firecracker_binary@) && demands(
                steps,
                config.kernel_image@,
            ) && demands(steps, config.base_rootfs@)
            &&& fit && config.jailer_binary is None ==> steps.last() is Refuse
            &&& fit && config.jailer_binary is Some ==> demands(steps, config.jailer_binary->0@)
                && demands(steps, "/dev/kvm"@) && forall|i: int|
                0 <= i < steps.len() ==> !(#[trigger] steps[i] is Refuse)
            &&& forall|i: int, j: int|
                0 <= i < steps.len() && 0 <= j < steps.len() && #[trigger] steps[i] is MakeDir
                    && #[trigger] steps[j] is Require ==> j < i
        }),
{
    let steps = preflight_steps(config, linux);
    if linux && config.agent_vsock_port == 10000 {
        assert(steps[0] is Require && steps[0]->Require_path == config.firecracker_binary@);
        assert(steps[1] is Require && steps[1]->Require_path == config.kernel_image@);
        assert(steps[2] is Require && steps[2]->Require_path == config.base_rootfs@);
        if config.jailer_binary is Some {
            assert(steps[3] is Require && steps[3]->Require_path == config.jailer_binary->0@);
            assert(steps[4] is Require && steps[4]->Require_path == "/dev/kvm"@);
        } else {
            assert(steps[3] == steps.last());
        }
    }
}

/// The default template is the base disk; any other is the disk that was set up for it.
pub proof fn law_templates_are_looked_up(config: FirecrackerConfig, template: Seq<char>)
    ensures
        template == "debian-slim"@ ==> template_of(config, template) == Some(config.base_rootfs@),
        template != "debian-slim"@ ==> (template_of(config, template) is Some
            <==> config.template_rootfs@.dom().contains(template)),
        template != "debian-slim"@ && config.template_rootfs@.dom().contains(template)
            ==> template_of(config, template) == Some(config.template_rootfs@[template]@),
{
}

/// A request names its method and its path, announces the length of its body in bytes, and
/// ends with the body.
pub proof fn law_requests_announce_their_body(call: ApiView, body: Seq<char>)
    ensures
        ({
            let text = request_with(call, body);
            &&& starts_with(
                text,
                api_method(call) + " "@ + api_path(call) + " HTTP/1.1\r\nHost: localhost\r\n"@,
            )
            &&& has_sub(
                text,
                "\r\nContent-Length: "@ + decimal(encode_utf8(body).len()) + "\r\n"@,
            )
            &&& ends_with(text, "\r\n\r\n"@ + body)
        }),
{
    reveal_strlit(
        " HTTP/1.1\r\nHost: localhost\r\nContent-Type: application/json\r\nContent-Length: ",
    );
    reveal_strlit(" HTTP/1.1\r\nHost: localhost\r\n");
    reveal_strlit("\r\nContent-Length: ");
    reveal_strlit("\r\nConnection: close\r\n\r\n");
    reveal_strlit("\r\n\r\n");
    reveal_strlit("\r\n");
    let text = request_with(call, body);
    let long =
        " HTTP/1.1\r\nHost: localhost\r\nContent-Type: application/json\r\nContent-Length: "@;
    let start = api_method(call) + " "@ + api_path(call);
    let n = decimal(encode_utf8(body).len());
    let close = "\r\nConnection: close\r\n\r\n"@;
    assert(text == start + long + n + close + body);
    let first = start + " HTTP/1.1\r\nHost: localhost\r\n"@;
    assert(text.subrange(0, first.len() as int) =~= first);
    let at = (start.len() + long.len() - "\r\nContent-Length: "@.len()) as int;
    let length = "\r\nContent-Length: "@ + n + "\r\n"@;
    assert(text.subrange(at, at + length.len()) =~= length);
    assert(occurs_at(text, length, at));
    let end = "\r\n\r\n"@ + body;
    assert(text.skip(text.len() - end.len()) =~= end);
}

/// Parts of a path are joined with one slash; an absolute part stands alone.
pub proof fn law_paths_are_joined_with_one_slash(base: Seq<char>, part: Seq<char>)
    requires
        base.len() > 0,
    ensures
        part.len() > 0 && part[0] == '/' ==> joined_path(base, part) == part,
        part.len() > 0 && part[0] != '/' && base.last() == '/' ==> joined_path(base, part) == base
            + part,
        part.len() > 0 && part[0] != '/' && base.last() != '/' ==> joined_path(base, part) == base
            + seq!['/'] + part,
{
    assert(base.push('/') + part =~= base + seq!['/'] + part);
}

/// The number of a path grows with it: every further byte is added to 31 times the number
/// before it, within 32 bits.
pub proof fn law_path_numbers_grow(bytes: Seq<u8>, byte: u8)
    ensures
        path_hash(Seq::empty()) == 0,
        path_hash(bytes.push(byte)) == (31 * path_hash(bytes) + byte) % 0x1_0000_0000,
{
    assert(bytes.push(byte).drop_last() =~= bytes);
}

/// A start that failed is told as it failed. What it made is removed once a process was
/// started and is gone; a process that does not go is told as well, and nothing is removed.
pub proof fn law_failed_starts_are_cleaned_up(
    stage: StartStage,
    error: RuntimeError,
    stuck: Option<RuntimeError>,
    r: FailedStart,
)
    requires
        fails_to_start(stage, error, stuck, r),
    ensures
        r.remove_dir <==> !(stage is Launch) && stuck is None,
        starts_with(error_text(r.error@), error_text(error@)),
        stuck is None || stage is Launch ==> r.error@ == error@,
        !(stage is Launch) && stuck is Some ==> ends_with(
            error_text(r.error@),
            error_text(stuck->0@),
        ),
{
    let told = error_text(r.error@);
    let first = error_text(error@);
    assert(first.subrange(0, first.len() as int) =~= first);
    if !(stage is Launch) && stuck is Some {
        let last = error_text(stuck->0@);
        assert(told.subrange(0, first.len() as int) =~= first);
        assert(told.skip(told.len() - last.len()) =~= last);
    }
}

/// A reply is good when its status is 200 or 204; a connection stands when the answer
/// begins with `OK`.
pub proof fn law_good_replies(status: Seq<char>, line: Seq<u8>)
    ensures
        succeeds(status) <==> (exists|i: int| #[trigger] occurs_at(status, " 200 "@, i)) || exists|
            i: int,
        | #[trigger]
            occurs_at(status, " 204 "@, i),
        begins_ok(line) <==> line.len() >= 3 && line.take(3) == seq![79u8, 75u8, 32u8],
{
    if line.len() >= 3 && line.take(3) == seq![79u8, 75u8, 32u8] {
        assert(line[0] == line.take(3)[0] && line[1] == line.take(3)[1] && line[2] == line.take(
            3,
        )[2]);
    }
    if begins_ok(line) {
        assert(line.take(3) =~= seq![79u8, 75u8, 32u8]);
    }
}

} // verus!
