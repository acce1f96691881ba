//! The pool itself: a fixed set of workers around one shared queue.
//!
//! `ThreadPool` holds the whole state of a pool and decides every change to
//! it. It starts no thread and runs no job. The code that owns the threads
//! keeps one `ThreadPool` behind a mutual-exclusion primitive of its choice
//! and calls in at each point where the pool has something to decide: a
//! submitter calls `execute`, a worker thread calls `worker_step` whenever
//! it is ready for its next action and does what the answer says, and the
//! owner calls `shutdown_step` until no thread is left to join.

use vstd::prelude::*;
use crate::error::PoolError;
use crate::history::{Execution, PoolEvent};
use crate::model::PoolState;
use crate::queue::{Received, SharedQueue};
use crate::worker::{LockState, ShutdownAction, Worker, WorkerAction, WorkerState};

verus! {

/// A pool of workers that run jobs of type `J`.
pub struct ThreadPool<J> {
    workers: Vec<Worker>,
    queue: SharedQueue<J>,
    lock: LockState,
    history: Ghost<Seq<PoolEvent<J>>>,
}

impl<J> View for ThreadPool<J> {
    type V = PoolState<J>;

    closed spec fn view(&self) -> PoolState<J> {
        PoolState {
            queue: self.queue@.jobs,
            accepting: self.queue@.sender,
            lock: self.lock,
            workers: self.workers@,
        }
    }
}

/// Whether some worker in `workers` has not left its loop.
fn any_live(workers: &Vec<Worker>) -> (r: bool)
    ensures
        r == exists|i: int|
            0 <= i < workers@.len() && !(#[trigger] workers@[i]).state.is_terminal(),
{
    let mut i: usize = 0;
    while i < workers.len()
        invariant
            i <= workers@.len(),
            forall|j: int| 0 <= j < i ==> (#[trigger] workers@[j]).state.is_terminal(),
        decreases workers@.len() - i,
    {
        if !workers[i].state.terminated() {
            return true;
        }
        i += 1;
    }
    false
}

impl<J> ThreadPool<J> {
    /// Everything that has happened to this pool since it was made, in order.
    pub closed spec fn history(&self) -> Seq<PoolEvent<J>> {
        self.history@
    }

    /// The execution that led to this pool: its history, replayed on a new
    /// pool of the same size.
    pub open spec fn execution(&self) -> Execution<J> {
        Execution::replay(self@.size(), self.history())
    }

    /// The pool is a valid one: its state satisfies the pool invariant, it
    /// is what its history makes of a new pool, and the queue has its
    /// receiving side exactly while a worker is alive.
    pub closed spec fn wf(&self) -> bool {
        &&& self@.inv()
        &&& self.workers@.len() <= usize::MAX
        &&& self.execution().pool == self@
        &&& self.queue@.receiver == self@.has_live_worker()
    }

    /// A valid pool is where its history leads, and the logs of that
    /// execution are sound: whatever is proved of all executions holds of
    /// this pool.
    pub proof fn lemma_execution(&self)
        requires
            self.wf(),
        ensures
            self.execution().pool == self@,
            self.execution().sound(),
            0 < self@.size() <= usize::MAX,
    {
        Execution::<J>::lemma_replay_sound(self@.size(), self.history());
    }

    /// Adds `event` to the history.
    fn record(&mut self, Ghost(event): Ghost<PoolEvent<J>>)
        ensures
            final(self).workers == old(self).workers,
            final(self).queue == old(self).queue,
            final(self).lock == old(self).lock,
            final(self).history() == old(self).history().push(event),
            final(self).execution() == old(self).execution().advance(event),
    {
        proof {
            assert(self.history@.push(event).drop_last() =~= self.history@);
        }
        self.history = Ghost(self.history@.push(event));
    }

    /// A pool of `size` workers with ids `0..size`, accepting work.
    pub fn new(size: usize) -> (pool: Self)
        requires
            size > 0,
        ensures
            pool.wf(),
            pool@ == PoolState::<J>::init(size as nat),
            pool.history() == Seq::<PoolEvent<J>>::empty(),
    {
        let mut workers: Vec<Worker> = Vec::with_capacity(size);
        let mut i: usize = 0;
        while i < size
            invariant
                i <= size,
                workers@.len() == i,
                forall|j: int|
                    0 <= j < i ==> (#[trigger] workers@[j]) == (Worker {
                        id: j as usize,
                        state: WorkerState::WaitingForLock,
                        joinable: true,
                    }),
            decreases size - i,
        {
            workers.push(Worker::new(i));
            i += 1;
        }
        let pool = ThreadPool {
            workers,
            queue: SharedQueue::new(),
            lock: LockState::Free,
            history: Ghost(Seq::empty()),
        };
        proof {
            assert(pool@.workers =~= PoolState::<J>::init(size as nat).workers);
            assert(pool@.is_worker(0) && !pool@.workers[0].state.is_terminal());
        }
        pool
    }

    /// As `new`, but a size of zero is answered with `InvalidPoolSize`.
    pub fn try_new(size: usize) -> (r: Result<Self, PoolError>)
        ensures
            size == 0 ==> (r matches Err(e) && e == PoolError::InvalidPoolSize),
            size > 0 ==> (r matches Ok(pool) && pool.wf() && pool@ == PoolState::<J>::init(
                size as nat,
            ) && pool.history() == Seq::<PoolEvent<J>>::empty()),
    {
        if size == 0 {
            Err(PoolError::InvalidPoolSize)
        } else {
            Ok(ThreadPool::new(size))
        }
    }

    /// Submits `job`. It is queued behind every job accepted before it, or
    /// refused with `QueueClosed` when shutdown has begun or no worker is
    /// left to receive it; a refused job is dropped unrun.
    pub fn execute(&mut self, job: J) -> (r: Result<(), PoolError>)
        requires
            old(self).wf(),
        ensures
            final(self).wf(),
            final(self)@ == old(self)@.submit(job),
            final(self).history() == old(self).history().push(PoolEvent::Submit(job)),
            r == old(self)@.submit_result(),
    {
        self.record(Ghost(PoolEvent::Submit(job)));
        self.queue.send(job)
    }

    /// Puts worker `id` into `state`.
    fn set_state(&mut self, id: usize, state: WorkerState)
        requires
            id < old(self).workers@.len(),
        ensures
            final(self).workers@ == old(self)@.set_worker_state(id as int, state),
            final(self).queue == old(self).queue,
            final(self).lock == old(self).lock,
            final(self).history == old(self).history,
    {
        let w = self.workers[id];
        self.workers.set(id, Worker { id: w.id, state, joinable: w.joinable });
    }

    /// Drops the receiving side of the queue once no worker is left alive.
    fn refresh_receiver(&mut self)
        requires
            old(self).queue@.receiver,
        ensures
            final(self)@ == old(self)@,
            final(self).history == old(self).history,
            final(self).queue@.receiver == final(self)@.has_live_worker(),
    {
        if !any_live(&self.workers) {
            self.queue.close_receiver();
        }
    }

    /// One step of the loop of worker `id`, taken when that worker is ready
    /// for its next action.
    ///
    /// A worker that wants the lock takes it if it is free, waits if it is
    /// held, and fails with `LockPoisoned` if it is poisoned. A worker that
    /// holds the lock is handed the head of the queue and gives the lock
    /// back before it runs the job; on an empty queue it waits while the
    /// pool accepts work and stops once it no longer does. A worker that
    /// was running a job has finished it and asks for the lock again. A
    /// worker that has left its loop, or an id that names no worker, is told
    /// to exit.
    pub fn worker_step(&mut self, id: usize) -> (action: WorkerAction<J>)
        requires
            old(self).wf(),
        ensures
            final(self).wf(),
            final(self)@ == old(self)@.step(id as int),
            final(self).history() == old(self).history().push(PoolEvent::Step(id as int)),
            action == old(self)@.action(id as int),
    {
        self.record(Ghost(PoolEvent::Step(id as int)));
        if id >= self.workers.len() {
            return WorkerAction::Exit;
        }
        let ghost before = self@;
        match self.workers[id].state {
            WorkerState::WaitingForLock => match self.lock {
                LockState::Free => {
                    self.lock = LockState::Held(id);
                    self.set_state(id, WorkerState::WaitingForJob);
                    proof {
                        assert(self@.is_worker(id as int) && !self@.workers[id as int].state.is_terminal());
                        assert forall|i: int|
                            self@.is_worker(i) && (#[trigger] self@.workers[i]).state is WaitingForJob
                            implies self@.lock == LockState::Held(i as usize) by {
                            if i != id {
                                assert(before.workers[i].state is WaitingForJob);
                            }
                        }
                    }
                    WorkerAction::Continue
                },
                LockState::Held(_) => WorkerAction::Wait,
                LockState::Poisoned => {
                    self.set_state(id, WorkerState::Failed);
                    proof {
                        assert(before.is_worker(id as int) && !before.workers[id as int].state.is_terminal());
                    }
                    self.refresh_receiver();
                    WorkerAction::Fail(PoolError::LockPoisoned)
                },
            },
            WorkerState::WaitingForJob => match self.queue.receive() {
                Received::Job(job) => {
                    self.lock = LockState::Free;
                    self.set_state(id, WorkerState::Executing);
                    proof {
                        assert(self@.is_worker(id as int) && !self@.workers[id as int].state.is_terminal());
                        assert(before.is_worker(id as int) && !before.workers[id as int].state.is_terminal());
                    }
                    WorkerAction::Run(job)
                },
                Received::Closed => {
                    self.lock = LockState::Free;
                    self.set_state(id, WorkerState::Stopped);
                    proof {
                        assert(before.is_worker(id as int) && !before.workers[id as int].state.is_terminal());
                    }
                    self.refresh_receiver();
                    WorkerAction::Exit
                },
                Received::Empty => WorkerAction::Wait,
            },
            WorkerState::Executing => {
                self.set_state(id, WorkerState::WaitingForLock);
                proof {
                    assert(self@.is_worker(id as int) && !self@.workers[id as int].state.is_terminal());
                    assert(before.is_worker(id as int) && !before.workers[id as int].state.is_terminal());
                }
                WorkerAction::Continue
            },
            WorkerState::Stopped => WorkerAction::Exit,
            WorkerState::Failed => WorkerAction::Exit,
        }
    }

    /// Records that the thread of worker `id` died outside its loop's
    /// control, as when the job it ran panicked. The worker is `Failed` from
    /// then on; a lock it held is left poisoned. Nothing changes for a
    /// worker that had already left its loop, or for an id that names none.
    pub fn worker_died(&mut self, id: usize)
        requires
            old(self).wf(),
        ensures
            final(self).wf(),
            final(self)@ == old(self)@.abort(id as int),
            final(self).history() == old(self).history().push(PoolEvent::Died(id as int)),
    {
        self.record(Ghost(PoolEvent::Died(id as int)));
        if id >= self.workers.len() {
            return ;
        }
        if self.workers[id].state.terminated() {
            return ;
        }
        let ghost before = self@;
        assert(before.is_worker(id as int) && !before.workers[id as int].state.is_terminal());
        match self.lock {
            LockState::Held(holder) => {
                if holder == id {
                    self.lock = LockState::Poisoned;
                }
            },
            _ => {},
        }
        self.set_state(id, WorkerState::Failed);
        self.refresh_receiver();
    }

    /// One step of shutdown.
    ///
    /// The sending side is removed first, if it is still there: from then on
    /// submissions are refused and a worker that finds the queue empty
    /// stops. Then the lowest worker that still has its handle is looked at.
    /// If it has left its loop, its handle is taken and the owner is told to
    /// join its thread; if it has not, the owner is told to wait. `Done`
    /// means that no handle is left: every worker has terminated and has
    /// been given out for joining exactly once, in order of id, and a
    /// further call changes nothing.
    pub fn shutdown_step(&mut self) -> (action: ShutdownAction)
        requires
            old(self).wf(),
        ensures
            final(self).wf(),
            final(self)@ == old(self)@.shutdown_step(),
            final(self).history() == old(self).history().push(PoolEvent::Shutdown),
            action == old(self)@.shutdown_action(),
    {
        let ghost before = self@;
        self.record(Ghost(PoolEvent::Shutdown));
        self.queue.close_sender();
        let mut i: usize = 0;
        while i < self.workers.len()
            invariant
                i <= self.workers@.len(),
                before == old(self)@,
                self.history() == old(self).history().push(PoolEvent::Shutdown),
                self.execution().pool == before.shutdown_step(),
                self.workers@ == before.workers,
                self.lock == before.lock,
                self.queue@.jobs == before.queue,
                !self.queue@.sender,
                self.queue@.receiver == before.has_live_worker(),
                before.inv(),
                forall|j: int| 0 <= j < i ==> !(#[trigger] before.workers[j]).joinable,
            decreases self.workers@.len() - i,
        {
            let w = self.workers[i];
            if w.joinable {
                proof {
                    assert(before.is_next_join(i as int));
                    let c = choose|c: int| before.is_next_join(c);
                    assert(c == i) by {
                        if c < i {
                            assert(!before.workers[c].joinable);
                        } else if c > i {
                            assert(!before.workers[i as int].joinable);
                        }
                    }
                }
                if !w.state.terminated() {
                    return ShutdownAction::Wait;
                }
                self.workers.set(i, Worker { id: w.id, state: w.state, joinable: false });
                proof {
                    assert(self.workers@ == before.workers.update(
                        i as int,
                        before.workers[i as int].joined(),
                    ));
                    assert forall|k: int| self@.is_worker(k) implies (
                    #[trigger] self@.workers[k]).state == before.workers[k].state by {}
                    if before.has_live_worker() {
                        let k = choose|k: int|
                            before.is_worker(k) && !(#[trigger] before.workers[k]).state.is_terminal();
                        assert(self@.is_worker(k) && !self@.workers[k].state.is_terminal());
                    }
                    if self@.has_live_worker() {
                        let k = choose|k: int|
                            self@.is_worker(k) && !(#[trigger] self@.workers[k]).state.is_terminal();
                        assert(before.is_worker(k) && !before.workers[k].state.is_terminal());
                    }
                }
                return ShutdownAction::Join(i);
            }
            i += 1;
        }
        proof {
            assert forall|c: int| !before.is_next_join(c) by {
                if before.is_worker(c) {
                    assert(!before.workers[c].joinable);
                }
            }
        }
        ShutdownAction::Done
    }

    /// The number of workers, fixed at construction.
    pub fn size(&self) -> (n: usize)
        ensures
            n == self@.size(),
    {
        self.workers.len()
    }

    /// The number of jobs accepted and not yet handed to a worker.
    pub fn queued(&self) -> (n: usize)
        ensures
            n == self@.queue.len(),
    {
        self.queue.len()
    }

    /// Whether the pool still holds its sending side.
    pub fn is_accepting(&self) -> (b: bool)
        ensures
            b == self@.accepting,
    {
        self.queue.has_sender()
    }

    /// The lock on the receiving side of the queue.
    pub fn lock_state(&self) -> (l: LockState)
        ensures
            l == self@.lock,
    {
        self.lock
    }

    /// The record of worker `id`, if there is such a worker.
    pub fn worker(&self, id: usize) -> (w: Option<Worker>)
        ensures
            w == (if self@.is_worker(id as int) {
                Some(self@.workers[id as int])
            } else {
                None
            }),
    {
        if id < self.workers.len() {
            Some(self.workers[id])
        } else {
            None
        }
    }
}

} // verus!
