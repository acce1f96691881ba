//! The worker record and the states its loop moves through.

use vstd::prelude::*;
use crate::error::PoolError;

verus! {

/// Where a worker stands in its loop.
///
/// A worker cycles `WaitingForLock -> WaitingForJob -> Executing ->
/// WaitingForLock`. `Stopped` is reached only from `WaitingForJob`, when the
/// queue reports closure. `Failed` is the abnormal end: the worker met a
/// poisoned lock, or its thread died (a job that panics takes its worker
/// with it; the slot is not refilled).
#[derive(Clone, Copy, Debug, PartialEq, Eq, Structural)]
pub enum WorkerState {
    /// Wants the queue lock.
    WaitingForLock,
    /// Holds the queue lock and waits for the next job.
    WaitingForJob,
    /// Runs a job, outside the lock.
    Executing,
    /// Observed closure and left its loop.
    Stopped,
    /// Terminated abnormally.
    Failed,
}

impl WorkerState {
    /// A terminal state is never left.
    pub open spec fn is_terminal(self) -> bool {
        self is Stopped || self is Failed
    }

    /// Whether the worker has left its loop for good.
    pub fn terminated(&self) -> (r: bool)
        ensures
            r == self.is_terminal(),
    {
        match self {
            WorkerState::Stopped => true,
            WorkerState::Failed => true,
            _ => false,
        }
    }
}

/// The lock that guards the receiving side of the queue.
#[derive(Clone, Copy, Debug, PartialEq, Eq, Structural)]
pub enum LockState {
    /// Nobody holds it.
    Free,
    /// Held by the worker with this id.
    Held(usize),
    /// Its holder died; every later attempt to take it fails.
    Poisoned,
}

/// One worker of the pool: its identifier, the state of its loop, and
/// whether its thread handle is still there to be joined.
///
/// The handle is modelled by its presence alone: `joinable` is true from
/// construction until shutdown takes the handle, and never again after.
#[derive(Clone, Copy, Debug, PartialEq, Eq, Structural)]
pub struct Worker {
    /// The worker's place among the workers of its pool. It never changes.
    pub id: usize,
    /// Where the worker stands in its loop.
    pub state: WorkerState,
    /// Whether the handle of the worker's thread is still there to be taken.
    pub joinable: bool,
}

impl Worker {
    /// A fresh worker: about to ask for the lock, handle present.
    pub fn new(id: usize) -> (w: Worker)
        ensures
            w == (Worker { id, state: WorkerState::WaitingForLock, joinable: true }),
    {
        Worker { id, state: WorkerState::WaitingForLock, joinable: true }
    }

    /// The same worker in another state.
    pub open spec fn with_state(self, state: WorkerState) -> Worker {
        Worker { id: self.id, state, joinable: self.joinable }
    }

    /// The same worker with its handle taken.
    pub open spec fn joined(self) -> Worker {
        Worker { id: self.id, state: self.state, joinable: false }
    }
}

/// What a worker thread must do after a step of its loop.
#[derive(Debug, PartialEq, Eq)]
pub enum WorkerAction<J> {
    /// The state advanced; step again at once.
    Continue,
    /// Nothing can be done now; block until the pool changes, then step again.
    Wait,
    /// Run this job outside the lock, then step again.
    Run(J),
    /// The loop is over; let the thread end.
    Exit,
    /// The loop is over because of this error; let the thread end.
    Fail(PoolError),
}

/// What the owner of the pool must do after a step of shutdown.
#[derive(Clone, Copy, Debug, PartialEq, Eq, Structural)]
pub enum ShutdownAction {
    /// The worker with this id has left its loop and its handle was taken:
    /// join its thread, then step again.
    Join(usize),
    /// The next worker to join is still in its loop; block until the pool
    /// changes, then step again.
    Wait,
    /// Every thread has been joined. Shutdown is complete.
    Done,
}

} // verus!
