//! The pool as a mathematical state machine.
//!
//! A `PoolState` is everything the pool is at one instant. The transitions
//! below are the only ways in which it changes: a submission, a step of one
//! worker's loop, the abnormal death of a worker, and a step of shutdown.

use vstd::prelude::*;
use crate::error::PoolError;
use crate::worker::{LockState, ShutdownAction, Worker, WorkerAction, WorkerState};

verus! {

/// The state of a pool at one instant.
pub struct PoolState<J> {
    /// Jobs accepted and not yet handed to a worker, oldest first.
    pub queue: Seq<J>,
    /// Whether the pool still holds its sending side.
    pub accepting: bool,
    /// The lock on the receiving side of the queue.
    pub lock: LockState,
    /// The workers, by id.
    pub workers: Seq<Worker>,
}

impl<J> PoolState<J> {
    /// A new pool of `size` workers: nothing queued, accepting, lock free,
    /// every worker about to ask for the lock with its handle present.
    pub open spec fn init(size: nat) -> Self {
        PoolState {
            queue: Seq::empty(),
            accepting: true,
            lock: LockState::Free,
            workers: Seq::new(
                size,
                |i: int|
                    Worker { id: i as usize, state: WorkerState::WaitingForLock, joinable: true },
            ),
        }
    }

    /// The number of workers.
    pub open spec fn size(self) -> nat {
        self.workers.len()
    }

    /// `id` names a worker of this pool.
    pub open spec fn is_worker(self, id: int) -> bool {
        0 <= id < self.workers.len()
    }

    /// Some worker has not left its loop: the receiving side is alive.
    pub open spec fn has_live_worker(self) -> bool {
        exists|i: int| self.is_worker(i) && !(#[trigger] self.workers[i]).state.is_terminal()
    }

    /// Every worker has left its loop.
    pub open spec fn all_terminated(self) -> bool {
        forall|i: int| self.is_worker(i) ==> (#[trigger] self.workers[i]).state.is_terminal()
    }

    /// Every worker has left its loop by observing closure.
    pub open spec fn all_stopped(self) -> bool {
        forall|i: int| self.is_worker(i) ==> (#[trigger] self.workers[i]).state is Stopped
    }

    /// No worker has terminated abnormally.
    pub open spec fn no_worker_failed(self) -> bool {
        forall|i: int| self.is_worker(i) ==> !((#[trigger] self.workers[i]).state is Failed)
    }

    /// A submission is taken exactly when the sending side is present and a
    /// worker is left to receive.
    pub open spec fn can_accept(self) -> bool {
        self.accepting && self.has_live_worker()
    }

    /// The pool after `job` was submitted.
    pub open spec fn submit(self, job: J) -> Self {
        if self.can_accept() {
            PoolState { queue: self.queue.push(job), ..self }
        } else {
            self
        }
    }

    /// What the submitter is told.
    pub open spec fn submit_result(self) -> Result<(), PoolError> {
        if self.can_accept() {
            Ok(())
        } else {
            Err(PoolError::QueueClosed)
        }
    }

    /// The workers, with worker `id` put into `state`.
    pub open spec fn set_worker_state(self, id: int, state: WorkerState) -> Seq<Worker> {
        self.workers.update(id, self.workers[id].with_state(state))
    }

    /// The pool after worker `id` took the next step of its loop.
    pub open spec fn step(self, id: int) -> Self {
        if !self.is_worker(id) {
            self
        } else {
            match self.workers[id].state {
                WorkerState::WaitingForLock => match self.lock {
                    LockState::Free => PoolState {
                        lock: LockState::Held(id as usize),
                        workers: self.set_worker_state(id, WorkerState::WaitingForJob),
                        ..self
                    },
                    LockState::Held(_) => self,
                    LockState::Poisoned => PoolState {
                        workers: self.set_worker_state(id, WorkerState::Failed),
                        ..self
                    },
                },
                WorkerState::WaitingForJob => if self.queue.len() > 0 {
                    PoolState {
                        queue: self.queue.drop_first(),
                        lock: LockState::Free,
                        workers: self.set_worker_state(id, WorkerState::Executing),
                        ..self
                    }
                } else if !self.accepting {
                    PoolState {
                        lock: LockState::Free,
                        workers: self.set_worker_state(id, WorkerState::Stopped),
                        ..self
                    }
                } else {
                    self
                },
                WorkerState::Executing => PoolState {
                    workers: self.set_worker_state(id, WorkerState::WaitingForLock),
                    ..self
                },
                WorkerState::Stopped => self,
                WorkerState::Failed => self,
            }
        }
    }

    /// What worker `id` is told to do by that step.
    pub open spec fn action(self, id: int) -> WorkerAction<J> {
        if !self.is_worker(id) {
            WorkerAction::Exit
        } else {
            match self.workers[id].state {
                WorkerState::WaitingForLock => match self.lock {
                    LockState::Free => WorkerAction::Continue,
                    LockState::Held(_) => WorkerAction::Wait,
                    LockState::Poisoned => WorkerAction::Fail(PoolError::LockPoisoned),
                },
                WorkerState::WaitingForJob => if self.queue.len() > 0 {
                    WorkerAction::Run(self.queue[0])
                } else if !self.accepting {
                    WorkerAction::Exit
                } else {
                    WorkerAction::Wait
                },
                WorkerState::Executing => WorkerAction::Continue,
                WorkerState::Stopped => WorkerAction::Exit,
                WorkerState::Failed => WorkerAction::Exit,
            }
        }
    }

    /// The pool after the thread of worker `id` died outside its loop's
    /// control. A lock it held is left poisoned. A worker that had already
    /// left its loop is not touched.
    pub open spec fn abort(self, id: int) -> Self {
        if !self.is_worker(id) || self.workers[id].state.is_terminal() {
            self
        } else {
            PoolState {
                lock: if self.lock == LockState::Held(id as usize) {
                    LockState::Poisoned
                } else {
                    self.lock
                },
                workers: self.set_worker_state(id, WorkerState::Failed),
                ..self
            }
        }
    }

    /// `id` is the lowest worker whose handle is still present.
    pub open spec fn is_next_join(self, id: int) -> bool {
        &&& self.is_worker(id)
        &&& self.workers[id].joinable
        &&& forall|j: int| 0 <= j < id ==> !(#[trigger] self.workers[j]).joinable
    }

    /// The worker that shutdown joins next, if any is left.
    pub open spec fn next_join(self) -> Option<int> {
        if exists|i: int| self.is_next_join(i) {
            Some(choose|i: int| self.is_next_join(i))
        } else {
            None
        }
    }

    /// What the owner is told to do by a step of shutdown: to join the next
    /// worker once it has left its loop, to wait while it has not, and
    /// nothing more when no handle is left.
    pub open spec fn shutdown_action(self) -> ShutdownAction {
        match self.next_join() {
            Some(id) => if self.workers[id].state.is_terminal() {
                ShutdownAction::Join(id as usize)
            } else {
                ShutdownAction::Wait
            },
            None => ShutdownAction::Done,
        }
    }

    /// The pool after one step of shutdown: the sending side is gone, and
    /// the handle of the next worker to join is taken if that worker has
    /// left its loop.
    pub open spec fn shutdown_step(self) -> Self {
        match self.shutdown_action() {
            ShutdownAction::Join(id) => PoolState {
                accepting: false,
                workers: self.workers.update(id as int, self.workers[id as int].joined()),
                ..self
            },
            _ => PoolState { accepting: false, ..self },
        }
    }

    /// Shutdown has nothing left to do.
    pub open spec fn shutdown_done(self) -> bool {
        !self.accepting && forall|i: int|
            self.is_worker(i) ==> !(#[trigger] self.workers[i]).joinable
    }

    /// What holds of every pool, whatever happened to it.
    pub open spec fn inv(self) -> bool {
        &&& self.workers.len() > 0
        &&& forall|i: int| self.is_worker(i) ==> (#[trigger] self.workers[i]).id == i
        &&& self.lock matches LockState::Held(h) ==> self.is_worker(h as int)
            && self.workers[h as int].state is WaitingForJob
        &&& forall|i: int|
            self.is_worker(i) && (#[trigger] self.workers[i]).state is WaitingForJob
                ==> self.lock == LockState::Held(i as usize)
        &&& forall|i: int|
            self.is_worker(i) && (#[trigger] self.workers[i]).state is Stopped ==> !self.accepting
                && self.queue.len() == 0
        &&& forall|i: int|
            self.is_worker(i) && !(#[trigger] self.workers[i]).joinable ==> !self.accepting
                && self.workers[i].state.is_terminal()
    }

    /// A new pool satisfies the invariant.
    pub proof fn lemma_init_inv(size: nat)
        requires
            0 < size <= usize::MAX,
        ensures
            Self::init(size).inv(),
    {
    }

    /// A submission keeps the invariant.
    pub proof fn lemma_submit_inv(self, job: J)
        requires
            self.inv(),
        ensures
            self.submit(job).inv(),
    {
        if self.can_accept() {
            let next = self.submit(job);
            assert forall|i: int| next.is_worker(i) implies !((#[trigger] next.workers[i]).state is Stopped) by {
                assert(self.workers[i] == next.workers[i]);
            }
        }
    }

    /// A step of a worker keeps the invariant.
    pub proof fn lemma_step_inv(self, id: int)
        requires
            self.inv(),
        ensures
            self.step(id).inv(),
    {
        let next = self.step(id);
        if self.is_worker(id) {
            assert forall|i: int| next.is_worker(i) && i != id implies (#[trigger] next.workers[i])
                == self.workers[i] by {}
            assert(next.workers.len() == self.workers.len());
        }
    }

    /// The death of a worker keeps the invariant.
    pub proof fn lemma_abort_inv(self, id: int)
        requires
            self.inv(),
        ensures
            self.abort(id).inv(),
    {
        let next = self.abort(id);
        if self.is_worker(id) {
            assert forall|i: int| next.is_worker(i) && i != id implies (#[trigger] next.workers[i])
                == self.workers[i] by {}
        }
    }

    /// The worker that shutdown joins next is the lowest one whose handle is
    /// present, and there is one unless every handle has been taken.
    pub proof fn lemma_next_join(self)
        ensures
            match self.next_join() {
                Some(id) => self.is_next_join(id),
                None => forall|i: int| self.is_worker(i) ==> !(#[trigger] self.workers[i]).joinable,
            },
    {
        if !(exists|i: int| self.is_next_join(i)) {
            assert forall|i: int| self.is_worker(i) implies !(#[trigger] self.workers[i]).joinable by {
                if self.workers[i].joinable {
                    self.lemma_lowest_joinable(i);
                }
            }
        }
    }

    /// If the handle of worker `upto` is present, some worker at or below it
    /// is the next to join.
    pub proof fn lemma_lowest_joinable(self, upto: int)
        requires
            self.is_worker(upto),
            self.workers[upto].joinable,
        ensures
            exists|i: int| self.is_next_join(i),
        decreases upto,
    {
        if forall|j: int| 0 <= j < upto ==> !(#[trigger] self.workers[j]).joinable {
            assert(self.is_next_join(upto));
        } else {
            let j = choose|j: int| 0 <= j < upto && (#[trigger] self.workers[j]).joinable;
            self.lemma_lowest_joinable(j);
        }
    }

    /// A step of shutdown keeps the invariant.
    pub proof fn lemma_shutdown_inv(self)
        requires
            self.inv(),
        ensures
            self.shutdown_step().inv(),
    {
        let next = self.shutdown_step();
        self.lemma_next_join();
        assert forall|i: int| next.is_worker(i) implies (#[trigger] next.workers[i]).state
            == self.workers[i].state && next.workers[i].id == self.workers[i].id by {}
    }
}

} // verus!
