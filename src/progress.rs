use vstd::prelude::*;

verus! {

/// Sent when a long-running task has finished.
#[derive(Debug, Clone)]
pub struct TaskFinishedPayload {
    pub version: u32,
    pub path: String,
}

/// Sent when a long-running task has failed.
#[derive(Debug, Clone)]
pub struct TaskErrorPayload {
    pub version: u32,
    pub message: String,
}

} // verus!
