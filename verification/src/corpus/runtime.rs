//! A stand-in for a task runtime: spawning schedules nothing, and the handle
//! it returns is complete from the start.

use std::future::Future;
use vstd::prelude::*;

verus! {

/// The handle of a spawned task.
#[derive(Clone, Copy, Debug, PartialEq, Eq, Structural)]
pub struct JoinHandle;

impl JoinHandle {
    /// Asks the task to stop. The task of this runtime never runs, so nothing
    /// happens and nothing is returned.
    pub fn abort(&self) {
    }
}

/// Takes a unit of work and returns its handle. The work is dropped.
pub fn spawn<F>(_f: F) -> (handle: JoinHandle) where F: Future<Output = ()> + Send + 'static
    ensures
        handle == JoinHandle,
{
    JoinHandle
}

} // verus!
