//! What outlives the service: which sandboxes are saved when it ends, what is
//! written down of them, and in which state they come back.

use crate::table::Table;
use crate::text::{copy_opt, opt_text, texts};
use crate::types::{
    CreateSandboxRequest, KnowledgeMount, NetworkPolicy, SandboxInfo, SandboxState, SnapshotInfo,
};
use crate::vm::control::{keyed, ControlPlane, Record};
use vstd::prelude::*;

verus! {

broadcast use crate::text::lemma_texts_push;

/// Whether a sandbox is paused before the service ends.
pub open spec fn saves_at_end(info: SandboxInfo) -> bool {
    info.state is Running && !info.has_secrets
}

/// The state in which a sandbox comes back.
pub open spec fn state_after_restart(info: SandboxInfo) -> SandboxState {
    if info.has_secrets || info.state is Creating {
        SandboxState::Failed
    } else {
        info.state
    }
}

pub fn needs_checkpoint(info: &SandboxInfo) -> (b: bool)
    ensures
        b == saves_at_end(*info),
{
    info.state == SandboxState::Running && !info.has_secrets
}

pub fn restart_state(info: &SandboxInfo) -> (r: SandboxState)
    ensures
        r == state_after_restart(*info),
{
    if info.has_secrets || info.state == SandboxState::Creating {
        SandboxState::Failed
    } else {
        info.state
    }
}

/// A running sandbox comes back running exactly where it was saved; others keep
/// their state unless they held secrets.
pub proof fn law_restart_keeps_the_state(info: SandboxInfo)
    requires
        !(info.state is Creating),
    ensures
        info.state is Running ==> (state_after_restart(info) is Running <==> saves_at_end(info)),
        !info.has_secrets ==> state_after_restart(info) == info.state,
        info.has_secrets ==> state_after_restart(info) is Failed,
{
}

// ---------------------------------------------------------------------------
// What is written down
// ---------------------------------------------------------------------------
/// Everything that a request holds but its secrets.
pub open spec fn keeps_all_but_secrets(kept: CreateSandboxRequest, request: CreateSandboxRequest) -> bool {
    &&& kept.secrets@ == Map::<Seq<char>, String>::empty()
    &&& kept.template@ == request.template@
    &&& kept.resources == request.resources
    &&& kept.timeout_seconds == request.timeout_seconds
    &&& kept.idle_action == request.idle_action
    &&& kept.network.deny_private_network == request.network.deny_private_network
    &&& texts(kept.network.allow_cidrs@) == texts(request.network.allow_cidrs@)
    &&& texts(kept.network.deny_cidrs@) == texts(request.network.deny_cidrs@)
    &&& texts(kept.network.allow_domains@) == texts(request.network.allow_domains@)
    &&& kept.env@ == request.env@
    &&& match request.knowledge {
        None => kept.knowledge is None,
        Some(k) => kept.knowledge matches Some(c) && c.bucket@ == k.bucket@ && c.prefix@
            == k.prefix@ && c.version@ == k.version@ && c.mount_path@ == k.mount_path@,
    }
    &&& opt_text(kept.snapshot_id) == opt_text(request.snapshot_id)
    &&& opt_text(kept.session_id) == opt_text(request.session_id)
}

fn copy_texts(v: &Vec<String>) -> (r: Vec<String>)
    ensures
        texts(r@) == texts(v@),
{
    let mut out: Vec<String> = Vec::new();
    let ghost all = texts(v@);
    assert(texts(out@) =~= all.take(0));
    for i in 0..v.len()
        invariant
            all == texts(v@),
            texts(out@) == all.take(i as int),
    {
        out.push(v[i].clone());
        assert(texts(out@) =~= all.take(i + 1));
    }
    assert(all.take(all.len() as int) =~= all);
    out
}

/// What is written down of a request.
pub fn kept_request(request: &CreateSandboxRequest) -> (r: CreateSandboxRequest)
    ensures
        keeps_all_but_secrets(r, *request),
{
    let mut env: Table<String> = Table::new();
    env.extend_from(&request.env);
    assert(env@ =~= request.env@);
    let knowledge = match &request.knowledge {
        None => None,
        Some(k) => Some(
            KnowledgeMount {
                bucket: k.bucket.clone(),
                prefix: k.prefix.clone(),
                version: k.version.clone(),
                mount_path: k.mount_path.clone(),
            },
        ),
    };
    CreateSandboxRequest {
        template: request.template.clone(),
        resources: request.resources,
        timeout_seconds: request.timeout_seconds,
        idle_action: request.idle_action,
        network: NetworkPolicy {
            deny_private_network: request.network.deny_private_network,
            allow_cidrs: copy_texts(&request.network.allow_cidrs),
            deny_cidrs: copy_texts(&request.network.deny_cidrs),
            allow_domains: copy_texts(&request.network.allow_domains),
        },
        env,
        secrets: Table::new(),
        knowledge,
        snapshot_id: copy_opt(&request.snapshot_id),
        session_id: copy_opt(&request.session_id),
    }
}

/// The record of a sandbox that is there again after a restart.
pub open spec fn restored<B>(
    info: SandboxInfo,
    request: CreateSandboxRequest,
    backend: B,
    failure: Option<String>,
) -> Record<B> {
    Record {
        info: SandboxInfo {
            state: if failure is Some {
                SandboxState::Failed
            } else {
                state_after_restart(info)
            },
            failure_reason: if failure is Some {
                failure
            } else {
                info.failure_reason
            },
            ..info
        },
        request,
        backend,
    }
}

/// A restart takes nothing from a sandbox but its life: what it is, what it was made from
/// and how long it may be left alone stay, and it fails with the reason where it could not
/// be brought back.
pub proof fn law_restart_keeps_the_sandbox<B>(
    info: SandboxInfo,
    request: CreateSandboxRequest,
    backend: B,
    failure: Option<String>,
)
    ensures
        ({
            let back = restored(info, request, backend, failure);
            &&& back.request == request
            &&& back.backend == backend
            &&& back.info.sandbox_id == info.sandbox_id
            &&& back.info.session_id == info.session_id
            &&& back.info.resources == info.resources
            &&& back.info.created_at_ms == info.created_at_ms
            &&& back.info.last_active_at_ms == info.last_active_at_ms
            &&& back.info.expires_at_ms == info.expires_at_ms
            &&& back.info.has_secrets == info.has_secrets
            &&& back.info.knowledge_version == info.knowledge_version
            &&& failure matches Some(why) ==> back.info.state is Failed && back.info.failure_reason
                == Some(why)
            &&& failure is None ==> back.info.failure_reason == info.failure_reason
            &&& failure is None && (info.has_secrets || info.state is Creating)
                ==> back.info.state is Failed
            &&& failure is None && !info.has_secrets && !(info.state is Creating)
                ==> back.info.state == info.state
        }),
{
}

impl<B> ControlPlane<B> {
    /// Records a sandbox again, in the state in which it comes back, unless its
    /// backend could not be taken up.
    pub fn restore(
        &mut self,
        info: SandboxInfo,
        request: CreateSandboxRequest,
        backend: B,
        failure: Option<String>,
    )
        ensures
            final(self).snapshots == old(self).snapshots,
            final(self).idempotency == old(self).idempotency,
            final(self).sandboxes@ == old(self).sandboxes@.insert(
                info.sandbox_id@,
                restored(info, request, backend, failure),
            ),
            keyed(old(self).sandboxes@) ==> keyed(final(self).sandboxes@),
            old(self).sound() ==> final(self).sound(),
    {
        let id = info.sandbox_id.clone();
        let state = if failure.is_some() {
            SandboxState::Failed
        } else {
            restart_state(&info)
        };
        let failure_reason = if failure.is_some() {
            failure
        } else {
            info.failure_reason
        };
        let info = SandboxInfo {
            sandbox_id: info.sandbox_id,
            session_id: info.session_id,
            state,
            resources: info.resources,
            created_at_ms: info.created_at_ms,
            last_active_at_ms: info.last_active_at_ms,
            expires_at_ms: info.expires_at_ms,
            has_secrets: info.has_secrets,
            knowledge_version: info.knowledge_version,
            failure_reason,
        };
        self.sandboxes.insert(id, Record { info, request, backend });
    }

    /// Records a snapshot again.
    pub fn restore_snapshot(&mut self, info: SnapshotInfo)
        ensures
            final(self).snapshots@ == old(self).snapshots@.insert(info.snapshot_id@, info),
            final(self).sandboxes == old(self).sandboxes,
            final(self).idempotency == old(self).idempotency,
    {
        let id = info.snapshot_id.clone();
        self.snapshots.insert(id, info);
    }

    /// Records a key again, unless it leads to no sandbox.
    pub fn restore_key(&mut self, key: String, sandbox_id: String)
        ensures
            final(self).idempotency@ == if old(self).sandboxes@.dom().contains(sandbox_id@) {
                old(self).idempotency@.insert(key@, sandbox_id)
            } else {
                old(self).idempotency@
            },
            final(self).sandboxes == old(self).sandboxes,
            final(self).snapshots == old(self).snapshots,
            old(self).sound() ==> final(self).sound(),
    {
        if self.sandboxes.get(sandbox_id.as_str()).is_some() {
            self.idempotency.insert(key, sandbox_id);
            assert(self.keys() =~= old(self).keys().insert(key@, sandbox_id@));
        }
    }
}

} // verus!
