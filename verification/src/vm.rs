//! How a virtual machine ends, and what that means for its job.
use crate::protocol::CompletionStatus;
use vstd::prelude::*;

verus! {

/// The exit of a VM process.
#[derive(Clone, Copy, Debug, PartialEq, Eq, Structural)]
pub enum VmExitStatus {
    /// The process exited with code zero.
    Success,
    /// The process exited with a non-zero code, or never came up.
    Failure,
}

impl From<VmExitStatus> for CompletionStatus {
    /// A job whose VM succeeded succeeded; one whose VM failed failed.
    fn from(status: VmExitStatus) -> (r: CompletionStatus) {
        match status {
            VmExitStatus::Success => CompletionStatus::Success,
            VmExitStatus::Failure => CompletionStatus::Failed,
        }
    }
}

impl vstd::std_specs::convert::FromSpecImpl<VmExitStatus> for CompletionStatus {
    open spec fn obeys_from_spec() -> bool {
        true
    }

    open spec fn from_spec(status: VmExitStatus) -> CompletionStatus {
        match status {
            VmExitStatus::Success => CompletionStatus::Success,
            VmExitStatus::Failure => CompletionStatus::Failed,
        }
    }
}

} // verus!
