//! Executions of a pool: what happened to it, event by event, and the
//! record of which job went where.
//!
//! An `Execution` pairs the state of a pool with the logs that an observer
//! standing beside it would keep. Jobs are told apart by position: the job
//! at position `k` of `handed` is the `k`-th job given to a worker.

use vstd::prelude::*;
use crate::model::PoolState;
use crate::worker::{ShutdownAction, WorkerAction, WorkerState};

verus! {

/// One thing that can happen to a pool.
pub enum PoolEvent<J> {
    /// A job is submitted.
    Submit(J),
    /// The worker with this id takes the next step of its loop.
    Step(int),
    /// The thread of the worker with this id dies outside its loop's control.
    Died(int),
    /// The owner takes one step of shutdown.
    Shutdown,
}

/// A pool together with the record of what has happened to it.
pub struct Execution<J> {
    /// The pool as it stands.
    pub pool: PoolState<J>,
    /// The jobs that were accepted, in order of submission.
    pub submitted: Seq<J>,
    /// The jobs that were given to a worker to run, in the order given.
    pub handed: Seq<J>,
    /// For each worker, the position in `handed` of the job it is running.
    pub running: Seq<Option<int>>,
    /// The positions in `handed` of the runs that came to their end, in the
    /// order in which they ended.
    pub finished: Seq<int>,
    /// The positions in `handed` of the runs cut short by their worker's death.
    pub abandoned: Seq<int>,
    /// The ids of the workers given out for joining, in the order given.
    pub joined: Seq<int>,
}

impl<J> Execution<J> {
    /// A new pool of `size` workers, with empty logs.
    pub open spec fn begin(size: nat) -> Self {
        Execution {
            pool: PoolState::init(size),
            submitted: Seq::empty(),
            handed: Seq::empty(),
            running: Seq::new(size, |i: int| None),
            finished: Seq::empty(),
            abandoned: Seq::empty(),
            joined: Seq::empty(),
        }
    }

    /// The execution after one more event.
    pub open spec fn advance(self, event: PoolEvent<J>) -> Self {
        match event {
            PoolEvent::Submit(job) => Execution {
                pool: self.pool.submit(job),
                submitted: if self.pool.can_accept() {
                    self.submitted.push(job)
                } else {
                    self.submitted
                },
                ..self
            },
            PoolEvent::Step(id) => match self.pool.action(id) {
                WorkerAction::Run(job) => Execution {
                    pool: self.pool.step(id),
                    handed: self.handed.push(job),
                    running: self.running.update(id, Some(self.handed.len() as int)),
                    ..self
                },
                _ => if self.pool.is_worker(id) && self.pool.workers[id].state is Executing {
                    Execution {
                        pool: self.pool.step(id),
                        finished: self.finished.push(self.running[id].unwrap()),
                        running: self.running.update(id, None),
                        ..self
                    }
                } else {
                    Execution { pool: self.pool.step(id), ..self }
                },
            },
            PoolEvent::Died(id) => if self.pool.is_worker(id) && self.pool.workers[id].state
                is Executing {
                Execution {
                    pool: self.pool.abort(id),
                    abandoned: self.abandoned.push(self.running[id].unwrap()),
                    running: self.running.update(id, None),
                    ..self
                }
            } else {
                Execution { pool: self.pool.abort(id), ..self }
            },
            PoolEvent::Shutdown => Execution {
                pool: self.pool.shutdown_step(),
                joined: match self.pool.shutdown_action() {
                    ShutdownAction::Join(id) => self.joined.push(id as int),
                    _ => self.joined,
                },
                ..self
            },
        }
    }

    /// The execution of a new pool of `size` workers through `trace`.
    pub open spec fn replay(size: nat, trace: Seq<PoolEvent<J>>) -> Self
        decreases trace.len(),
    {
        if trace.len() == 0 {
            Self::begin(size)
        } else {
            Self::replay(size, trace.drop_last()).advance(trace.last())
        }
    }

    /// Some worker is running the job at position `k`.
    pub open spec fn is_running(self, k: int) -> bool {
        exists|i: int| self.pool.is_worker(i) && #[trigger] self.running[i] == Some(k)
    }

    /// The job at position `k` is running, has been run to its end, or was
    /// abandoned by a worker that died.
    pub open spec fn accounted(self, k: int) -> bool {
        self.finished.contains(k) || self.abandoned.contains(k) || self.is_running(k)
    }

    /// The logs agree with the pool and with each other.
    pub open spec fn sound(self) -> bool {
        &&& self.pool.inv()
        &&& self.submitted == self.handed + self.pool.queue
        &&& self.running.len() == self.pool.workers.len()
        &&& forall|i: int|
            self.pool.is_worker(i) ==> ((#[trigger] self.running[i]) is Some
                <==> self.pool.workers[i].state is Executing)
        &&& forall|i: int|
            self.pool.is_worker(i) && (#[trigger] self.running[i]) is Some ==> 0
                <= self.running[i].unwrap() < self.handed.len()
        &&& forall|i: int, j: int|
            self.pool.is_worker(i) && self.pool.is_worker(j) && i != j && (
            #[trigger] self.running[i]) is Some ==> self.running[i] != #[trigger] self.running[j]
        &&& forall|p: int|
            0 <= p < self.finished.len() ==> 0 <= #[trigger] self.finished[p] < self.handed.len()
        &&& forall|p: int|
            0 <= p < self.abandoned.len() ==> 0 <= #[trigger] self.abandoned[p]
                < self.handed.len()
        &&& self.finished.no_duplicates()
        &&& forall|i: int, p: int|
            self.pool.is_worker(i) && 0 <= p < self.finished.len() ==> #[trigger] self.running[i]
                != Some(#[trigger] self.finished[p])
        &&& forall|k: int| 0 <= k < self.handed.len() ==> #[trigger] self.accounted(k)
        &&& self.abandoned.len() > 0 ==> exists|i: int|
            self.pool.is_worker(i) && (#[trigger] self.pool.workers[i]).state is Failed
        &&& self.joined.len() <= self.pool.workers.len()
        &&& forall|p: int| 0 <= p < self.joined.len() ==> #[trigger] self.joined[p] == p
        &&& forall|i: int|
            self.pool.is_worker(i) ==> ((#[trigger] self.pool.workers[i]).joinable <==> i
                >= self.joined.len())
    }

    /// A new pool with empty logs is sound.
    pub proof fn lemma_begin_sound(size: nat)
        requires
            0 < size <= usize::MAX,
        ensures
            Self::begin(size).sound(),
    {
        let x = Self::begin(size);
        assert(x.submitted =~= x.handed + x.pool.queue);
    }

    /// Every event keeps the logs sound.
    pub proof fn lemma_advance_sound(self, event: PoolEvent<J>)
        requires
            self.sound(),
        ensures
            self.advance(event).sound(),
    {
        match event {
            PoolEvent::Submit(job) => self.lemma_submit_sound(job),
            PoolEvent::Step(id) => self.lemma_step_sound(id),
            PoolEvent::Died(id) => self.lemma_died_sound(id),
            PoolEvent::Shutdown => self.lemma_shutdown_sound(),
        }
    }

    proof fn lemma_submit_sound(self, job: J)
        requires
            self.sound(),
        ensures
            self.advance(PoolEvent::Submit(job)).sound(),
    {
        let next = self.advance(PoolEvent::Submit(job));
        self.pool.lemma_submit_inv(job);
        assert(next.submitted =~= next.handed + next.pool.queue);
        assert forall|k: int| 0 <= k < next.handed.len() implies #[trigger] next.accounted(k) by {
            assert(self.accounted(k));
            self.lemma_accounted_kept(next, k);
        }
    }

    /// If the job at `k` is accounted for in `self`, and `next` has the same
    /// workers running the same jobs and logs that only grew, it is
    /// accounted for in `next`.
    proof fn lemma_accounted_kept(self, next: Self, k: int)
        requires
            self.accounted(k),
            next.pool.workers.len() == self.pool.workers.len(),
            next.running == self.running,
            self.finished.is_prefix_of(next.finished),
            self.abandoned.is_prefix_of(next.abandoned),
        ensures
            next.accounted(k),
    {
        if self.finished.contains(k) {
            let p = choose|p: int| 0 <= p < self.finished.len() && self.finished[p] == k;
            assert(next.finished[p] == k);
        } else if self.abandoned.contains(k) {
            let p = choose|p: int| 0 <= p < self.abandoned.len() && self.abandoned[p] == k;
            assert(next.abandoned[p] == k);
        } else {
            let i = choose|i: int| self.pool.is_worker(i) && #[trigger] self.running[i] == Some(k);
            assert(next.pool.is_worker(i) && next.running[i] == Some(k));
        }
    }

    proof fn lemma_step_sound(self, id: int)
        requires
            self.sound(),
        ensures
            self.advance(PoolEvent::Step(id)).sound(),
    {
        let next = self.advance(PoolEvent::Step(id));
        self.pool.lemma_step_inv(id);
        if !self.pool.is_worker(id) {
            assert(next == self);
            return ;
        }
        assert forall|i: int| next.pool.is_worker(i) && i != id implies (
        #[trigger] next.pool.workers[i]) == self.pool.workers[i] by {}
        assert(next.pool.workers[id].joinable == self.pool.workers[id].joinable);
        if self.abandoned.len() > 0 {
            let f = choose|f: int|
                self.pool.is_worker(f) && (#[trigger] self.pool.workers[f]).state is Failed;
            assert(next.pool.is_worker(f) && next.pool.workers[f].state is Failed);
        }
        match self.pool.action(id) {
            WorkerAction::Run(job) => {
                let k = self.handed.len() as int;
                assert(self.pool.queue =~= seq![job] + self.pool.queue.drop_first());
                assert(next.submitted =~= next.handed + next.pool.queue);
                assert forall|j: int| 0 <= j < next.handed.len() implies #[trigger] next.accounted(
                    j,
                ) by {
                    if j == k {
                        assert(next.pool.is_worker(id) && next.running[id] == Some(k));
                    } else {
                        assert(self.accounted(j));
                        if self.finished.contains(j) || self.abandoned.contains(j) {
                        } else {
                            let i = choose|i: int|
                                self.pool.is_worker(i) && #[trigger] self.running[i] == Some(j);
                            assert(i != id);
                            assert(next.pool.is_worker(i) && next.running[i] == Some(j));
                        }
                    }
                }
                assert forall|i: int|
                    next.pool.is_worker(i) && (#[trigger] next.pool.workers[i]).state
                        is Stopped implies false by {
                    assert(self.pool.workers[i].state is Stopped);
                }
            },
            _ => {
                if self.pool.workers[id].state is Executing {
                    let k = self.running[id].unwrap();
                    assert(next.finished.no_duplicates()) by {
                        assert forall|p: int, q: int|
                            0 <= p < next.finished.len() && 0 <= q < next.finished.len() && p
                                != q implies next.finished[p] != next.finished[q] by {
                            if p == self.finished.len() {
                                assert(self.running[id] != Some(self.finished[q]));
                            } else if q == self.finished.len() {
                                assert(self.running[id] != Some(self.finished[p]));
                            }
                        }
                    }
                    assert forall|i: int, p: int|
                        next.pool.is_worker(i) && 0 <= p < next.finished.len() implies (
                    #[trigger] next.running[i]) != Some(#[trigger] next.finished[p]) by {
                        if i != id {
                            if p == self.finished.len() {
                                assert(self.running[id] != self.running[i]);
                            } else {
                                assert(self.running[i] != Some(self.finished[p]));
                            }
                        }
                    }
                    assert forall|j: int| 0 <= j < next.handed.len() implies (
                    #[trigger] next.accounted(j)) by {
                        if j == k {
                            assert(next.finished[self.finished.len() as int] == k);
                        } else {
                            assert(self.accounted(j));
                            if self.finished.contains(j) {
                                let p = choose|p: int|
                                    0 <= p < self.finished.len() && self.finished[p] == j;
                                assert(next.finished[p] == j);
                            } else if self.abandoned.contains(j) {
                            } else {
                                let i = choose|i: int|
                                    self.pool.is_worker(i) && #[trigger] self.running[i] == Some(j);
                                assert(next.pool.is_worker(i) && next.running[i] == Some(j));
                            }
                        }
                    }
                    assert forall|p: int| 0 <= p < next.finished.len() implies 0
                        <= #[trigger] next.finished[p] < next.handed.len() by {
                        if p < self.finished.len() {
                            assert(next.finished[p] == self.finished[p]);
                        }
                    }
                } else {
                    assert forall|j: int| 0 <= j < next.handed.len() implies (
                    #[trigger] next.accounted(j)) by {
                        assert(self.accounted(j));
                        self.lemma_accounted_kept(next, j);
                    }
                }
            },
        }
    }

    proof fn lemma_died_sound(self, id: int)
        requires
            self.sound(),
        ensures
            self.advance(PoolEvent::Died(id)).sound(),
    {
        let next = self.advance(PoolEvent::Died(id));
        self.pool.lemma_abort_inv(id);
        if !self.pool.is_worker(id) || self.pool.workers[id].state.is_terminal() {
            assert(next == self);
            return ;
        }
        assert forall|i: int| next.pool.is_worker(i) && i != id implies (
        #[trigger] next.pool.workers[i]) == self.pool.workers[i] by {}
        assert(next.pool.is_worker(id) && next.pool.workers[id].state is Failed);
        if self.pool.workers[id].state is Executing {
            let k = self.running[id].unwrap();
            assert forall|j: int| 0 <= j < next.handed.len() implies #[trigger] next.accounted(
                j,
            ) by {
                if j == k {
                    assert(next.abandoned[self.abandoned.len() as int] == k);
                } else {
                    assert(self.accounted(j));
                    if self.finished.contains(j) {
                    } else if self.abandoned.contains(j) {
                        let p = choose|p: int|
                            0 <= p < self.abandoned.len() && self.abandoned[p] == j;
                        assert(next.abandoned[p] == j);
                    } else {
                        let i = choose|i: int|
                            self.pool.is_worker(i) && #[trigger] self.running[i] == Some(j);
                        assert(next.pool.is_worker(i) && next.running[i] == Some(j));
                    }
                }
            }
            assert forall|p: int| 0 <= p < next.abandoned.len() implies 0
                <= #[trigger] next.abandoned[p] < next.handed.len() by {
                if p < self.abandoned.len() {
                    assert(next.abandoned[p] == self.abandoned[p]);
                }
            }
        } else {
            assert forall|j: int| 0 <= j < next.handed.len() implies #[trigger] next.accounted(
                j,
            ) by {
                assert(self.accounted(j));
                self.lemma_accounted_kept(next, j);
            }
        }
    }

    proof fn lemma_shutdown_sound(self)
        requires
            self.sound(),
        ensures
            self.advance(PoolEvent::Shutdown).sound(),
    {
        let next = self.advance(PoolEvent::Shutdown);
        self.pool.lemma_shutdown_inv();
        self.pool.lemma_next_join();
        assert forall|i: int| next.pool.is_worker(i) implies (#[trigger] next.pool.workers[i]).state
            == self.pool.workers[i].state by {}
        assert forall|j: int| 0 <= j < next.handed.len() implies #[trigger] next.accounted(j) by {
            assert(self.accounted(j));
            self.lemma_accounted_kept(next, j);
        }
        if self.abandoned.len() > 0 {
            let f = choose|f: int|
                self.pool.is_worker(f) && (#[trigger] self.pool.workers[f]).state is Failed;
            assert(next.pool.is_worker(f) && next.pool.workers[f].state is Failed);
        }
        match self.pool.next_join() {
            Some(id) => {
                assert(id == self.joined.len()) by {
                    if id < self.joined.len() {
                        assert(!self.pool.workers[id].joinable);
                    } else if id > self.joined.len() {
                        assert(self.pool.workers[self.joined.len() as int].joinable);
                    }
                }
            },
            None => {},
        }
    }

    /// Whatever happens to a new pool, its logs stay sound.
    pub proof fn lemma_replay_sound(size: nat, trace: Seq<PoolEvent<J>>)
        requires
            0 < size <= usize::MAX,
        ensures
            Self::replay(size, trace).sound(),
        decreases trace.len(),
    {
        if trace.len() == 0 {
            Self::lemma_begin_sound(size);
        } else {
            Self::lemma_replay_sound(size, trace.drop_last());
            Self::replay(size, trace.drop_last()).lemma_advance_sound(trace.last());
        }
    }

    /// No event changes the number of workers.
    pub proof fn lemma_advance_keeps_size(self, event: PoolEvent<J>)
        ensures
            self.advance(event).pool.size() == self.pool.size(),
    {
        self.pool.lemma_next_join();
    }

    /// A pool keeps the size it was made with.
    pub proof fn lemma_replay_keeps_size(size: nat, trace: Seq<PoolEvent<J>>)
        ensures
            Self::replay(size, trace).pool.size() == size,
        decreases trace.len(),
    {
        if trace.len() > 0 {
            Self::lemma_replay_keeps_size(size, trace.drop_last());
            Self::replay(size, trace.drop_last()).lemma_advance_keeps_size(trace.last());
        }
    }
}

} // verus!
