//! The steps that plans are made of.

use crate::firecracker::api::{ApiCall, ApiView};
use crate::text::opt_text;
use crate::vm::error::{RuntimeError, RuntimeErrorView};
use vstd::prelude::*;

verus! {

#[derive(Debug)]
pub enum HostStep {
    /// Fail with the message unless the file exists.
    Require { path: String, missing: String },
    /// Fail.
    Refuse(RuntimeError),
    /// Make the directory with those above it.
    MakeDir { path: String },
    /// Find out whether files can be cloned by reference.
    ProbeReflink { source: String, target: String },
    /// Clone a file by reference; `lost` is the complaint where the source is what
    /// the request named.
    Clone { from: String, to: String, lost: Option<String> },
    /// Grow the root file system, as [`grown_size`](crate::firecracker::plan::grown_size) says.
    Resize { path: String, disk_mb: u32 },
    /// Hand the file to the jail's user and group.
    Own { path: String, uid: u32, gid: u32 },
    /// Ask Firecracker.
    Call(ApiCall),
    /// Have the guest write its caches out.
    Sync,
}

/// The mathematical counterpart of [`HostStep`].
pub enum StepView {
    Require { path: Seq<char>, missing: Seq<char> },
    Refuse(RuntimeErrorView),
    MakeDir { path: Seq<char> },
    ProbeReflink { source: Seq<char>, target: Seq<char> },
    Clone { from: Seq<char>, to: Seq<char>, lost: Option<Seq<char>> },
    Resize { path: Seq<char>, disk_mb: u32 },
    Own { path: Seq<char>, uid: u32, gid: u32 },
    Call(ApiView),
    Sync,
}

impl View for HostStep {
    type V = StepView;

    open spec fn view(&self) -> StepView {
        match self {
            HostStep::Require { path, missing } => StepView::Require {
                path: path@,
                missing: missing@,
            },
            HostStep::Refuse(e) => StepView::Refuse(e@),
            HostStep::MakeDir { path } => StepView::MakeDir { path: path@ },
            HostStep::ProbeReflink { source, target } => StepView::ProbeReflink {
                source: source@,
                target: target@,
            },
            HostStep::Clone { from, to, lost } => StepView::Clone {
                from: from@,
                to: to@,
                lost: opt_text(*lost),
            },
            HostStep::Resize { path, disk_mb } => StepView::Resize {
                path: path@,
                disk_mb: *disk_mb,
            },
            HostStep::Own { path, uid, gid } => StepView::Own {
                path: path@,
                uid: *uid,
                gid: *gid,
            },
            HostStep::Call(call) => StepView::Call(call@),
            HostStep::Sync => StepView::Sync,
        }
    }
}

pub open spec fn steps_view(steps: Seq<HostStep>) -> Seq<StepView> {
    Seq::new(steps.len(), |i: int| steps[i]@)
}

pub broadcast proof fn lemma_steps_push(steps: Seq<HostStep>, step: HostStep)
    ensures
        #[trigger] steps_view(steps.push(step)) == steps_view(steps).push(step@),
{
    assert(steps_view(steps.push(step)) =~= steps_view(steps).push(step@));
}

} // verus!
