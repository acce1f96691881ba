//! What holds of every pool, stated over its executions and proved.

use vstd::prelude::*;
use vstd::set_lib::{lemma_int_range, set_int_range};
use crate::error::PoolError;
use crate::history::{Execution, PoolEvent};
use crate::model::PoolState;
use crate::worker::{LockState, ShutdownAction, WorkerAction, WorkerState};

verus! {

/// Jobs are handed to workers in the order of their submission, none
/// twice, none skipped: at every moment the accepted jobs are those handed
/// out so far followed by those still queued. No run is ever logged as
/// finished twice, and every job handed out is running, finished, or was
/// abandoned by a worker that died.
pub proof fn law_jobs_are_handed_out_in_order<J>(size: nat, trace: Seq<PoolEvent<J>>)
    requires
        0 < size <= usize::MAX,
    ensures
        ({
            let x = Execution::replay(size, trace);
            &&& x.submitted == x.handed + x.pool.queue
            &&& x.finished.no_duplicates()
            &&& forall|k: int| 0 <= k < x.handed.len() ==> #[trigger] x.accounted(k)
        }),
{
    Execution::lemma_replay_sound(size, trace);
}

/// Once every worker has stopped by observing closure, every job that was
/// accepted has been run exactly once: the jobs handed out are the jobs
/// submitted, in the same order, nothing is left queued or running, and the
/// log of finished runs holds each of them once and nothing else.
pub proof fn law_stopped_workers_leave_nothing_undone<J>(size: nat, trace: Seq<PoolEvent<J>>)
    requires
        0 < size <= usize::MAX,
        Execution::replay(size, trace).pool.all_stopped(),
    ensures
        ({
            let x = Execution::replay(size, trace);
            &&& x.handed == x.submitted
            &&& x.pool.queue.len() == 0
            &&& forall|i: int| x.pool.is_worker(i) ==> (#[trigger] x.running[i]) is None
            &&& x.finished.len() == x.submitted.len()
            &&& x.finished.no_duplicates()
            &&& forall|k: int| 0 <= k < x.submitted.len() ==> x.finished.contains(k)
        }),
{
    let x = Execution::replay(size, trace);
    Execution::lemma_replay_sound(size, trace);
    assert(x.pool.is_worker(0) && x.pool.workers[0].state is Stopped);
    assert(x.handed =~= x.submitted);
    assert(x.abandoned.len() == 0) by {
        if x.abandoned.len() > 0 {
            let f = choose|f: int|
                x.pool.is_worker(f) && (#[trigger] x.pool.workers[f]).state is Failed;
            assert(x.pool.workers[f].state is Stopped);
        }
    }
    assert forall|k: int| 0 <= k < x.submitted.len() implies x.finished.contains(k) by {
        assert(x.accounted(k));
        if x.is_running(k) {
            let i = choose|i: int| x.pool.is_worker(i) && #[trigger] x.running[i] == Some(k);
            assert(x.pool.workers[i].state is Stopped);
        }
    }
    assert(x.finished.to_set() =~= set_int_range(0, x.submitted.len() as int)) by {
        assert forall|k: int| x.finished.to_set().contains(k) implies set_int_range(
            0,
            x.submitted.len() as int,
        ).contains(k) by {
            let p = choose|p: int| 0 <= p < x.finished.len() && x.finished[p] == k;
            assert(0 <= x.finished[p] < x.handed.len());
        }
    }
    x.finished.unique_seq_to_set();
    lemma_int_range(0, x.submitted.len() as int);
}

/// By the time shutdown is complete, every job that was accepted has been
/// run exactly once, unless a worker terminated abnormally: the jobs handed
/// out are the jobs submitted, in the same order, nothing is left queued or
/// running, and the log of finished runs holds each of them once and
/// nothing else.
pub proof fn law_every_job_runs_exactly_once<J>(size: nat, trace: Seq<PoolEvent<J>>)
    requires
        0 < size <= usize::MAX,
        Execution::replay(size, trace).pool.shutdown_done(),
        Execution::replay(size, trace).pool.no_worker_failed(),
    ensures
        ({
            let x = Execution::replay(size, trace);
            &&& x.handed == x.submitted
            &&& x.pool.queue.len() == 0
            &&& forall|i: int| x.pool.is_worker(i) ==> (#[trigger] x.running[i]) is None
            &&& x.finished.len() == x.submitted.len()
            &&& x.finished.no_duplicates()
            &&& forall|k: int| 0 <= k < x.submitted.len() ==> x.finished.contains(k)
        }),
{
    let x = Execution::replay(size, trace);
    Execution::lemma_replay_sound(size, trace);
    assert forall|i: int| x.pool.is_worker(i) implies (#[trigger] x.pool.workers[i]).state
        is Stopped by {
        assert(!x.pool.workers[i].joinable);
    }
    law_stopped_workers_leave_nothing_undone(size, trace);
}

/// With a single worker, runs end in the order in which they began, and at
/// most one job is out at a time.
spec fn one_at_a_time<J>(x: Execution<J>) -> bool {
    &&& forall|p: int| 0 <= p < x.finished.len() ==> #[trigger] x.finished[p] == p
    &&& x.running[0] is Some ==> x.running[0] == Some(x.finished.len() as int) && x.handed.len()
        == x.finished.len() + 1
    &&& x.running[0] is None && !(x.pool.workers[0].state is Failed) ==> x.handed.len()
        == x.finished.len()
}

proof fn lemma_one_at_a_time<J>(trace: Seq<PoolEvent<J>>)
    ensures
        Execution::replay(1, trace).sound(),
        one_at_a_time(Execution::replay(1, trace)),
    decreases trace.len(),
{
    Execution::lemma_replay_sound(1, trace);
    if trace.len() > 0 {
        let before = Execution::replay(1, trace.drop_last());
        let x = Execution::replay(1, trace);
        lemma_one_at_a_time(trace.drop_last());
        Execution::lemma_replay_keeps_size(1, trace.drop_last());
        Execution::lemma_replay_keeps_size(1, trace);
        assert(before.pool.is_worker(0));
        assert(x.pool.is_worker(0));
        match trace.last() {
            PoolEvent::Submit(job) => {},
            PoolEvent::Step(id) => {
                if id == 0 {
                    if before.pool.workers[0].state is Failed {
                        assert(x == before);
                    }
                } else {
                    assert(x == before);
                }
            },
            PoolEvent::Died(id) => {
                if id != 0 {
                    assert(x == before);
                }
            },
            PoolEvent::Shutdown => {
                before.pool.lemma_next_join();
            },
        }
    }
}

/// A pool with a single worker runs jobs in the order of their submission:
/// the run that ends first is that of the job submitted first, and so on,
/// and a job is handed out only when the run before it has ended.
pub proof fn law_single_worker_runs_jobs_in_order<J>(trace: Seq<PoolEvent<J>>)
    ensures
        ({
            let x = Execution::replay(1, trace);
            &&& x.finished.len() <= x.handed.len() <= x.finished.len() + 1
            &&& x.handed.len() <= x.submitted.len()
            &&& forall|p: int|
                0 <= p < x.finished.len() ==> #[trigger] x.finished[p] == p && x.handed[p]
                    == x.submitted[p]
        }),
{
    let x = Execution::<J>::replay(1, trace);
    lemma_one_at_a_time(trace);
    Execution::lemma_replay_keeps_size(1, trace);
    assert(x.pool.is_worker(0));
    assert(x.handed.len() <= x.finished.len() + 1) by {
        if x.running[0] is None && x.pool.workers[0].state is Failed {
            // the worker died: the run it abandoned, if any, was the last one handed out
            lemma_single_worker_abandons_last(trace);
        }
    }
    assert(x.finished.len() <= x.handed.len()) by {
        if x.finished.len() > 0 {
            let last = x.finished.len() - 1;
            assert(0 <= x.finished[last] < x.handed.len());
        }
    }
}

/// With a single worker, at most one run is ever abandoned, and nothing is
/// handed out after it.
proof fn lemma_single_worker_abandons_last<J>(trace: Seq<PoolEvent<J>>)
    ensures
        ({
            let x = Execution::replay(1, trace);
            x.pool.workers[0].state is Failed ==> x.handed.len() <= x.finished.len() + 1
        }),
    decreases trace.len(),
{
    lemma_one_at_a_time(trace);
    if trace.len() > 0 {
        let before = Execution::replay(1, trace.drop_last());
        let x = Execution::replay(1, trace);
        lemma_single_worker_abandons_last(trace.drop_last());
        lemma_one_at_a_time(trace.drop_last());
        Execution::lemma_replay_keeps_size(1, trace.drop_last());
        Execution::lemma_replay_keeps_size(1, trace);
        assert(before.pool.is_worker(0));
        assert(x.pool.is_worker(0));
        match trace.last() {
            PoolEvent::Submit(job) => {},
            PoolEvent::Step(id) => {
                if id == 0 {
                    if before.pool.workers[0].state is Failed {
                        assert(x == before);
                    }
                } else {
                    assert(x == before);
                }
            },
            PoolEvent::Died(id) => {
                if id != 0 {
                    assert(x == before);
                }
            },
            PoolEvent::Shutdown => {
                before.pool.lemma_next_join();
            },
        }
    }
}

/// The events of submitting `jobs` one after the other.
pub open spec fn submissions<J>(jobs: Seq<J>) -> Seq<PoolEvent<J>> {
    Seq::new(jobs.len(), |k: int| PoolEvent::Submit(jobs[k]))
}

/// The events in which workers `0`, `1`, ... up to `count`, one after the
/// other, each take the lock and then receive. No run ends in it.
pub open spec fn start_of_each<J>(count: nat) -> Seq<PoolEvent<J>> {
    Seq::new(2 * count, |p: int| PoolEvent::Step(p / 2))
}

/// The execution `x` stands where `k` events of submitting `jobs` and then
/// starting one worker after the other lead a new pool of `size` workers.
spec fn staged<J>(x: Execution<J>, size: nat, jobs: Seq<J>, k: int) -> bool {
    let taken = if k <= jobs.len() {
        k
    } else {
        jobs.len() as int
    };
    let steps = if k <= jobs.len() {
        0
    } else {
        k - jobs.len()
    };
    let started = steps / 2;
    let holding = steps % 2 == 1;
    &&& x.pool.workers.len() == size
    &&& x.pool.accepting
    &&& x.submitted =~= jobs.take(taken)
    &&& x.handed =~= jobs.take(started)
    &&& x.pool.queue =~= jobs.subrange(started, taken)
    &&& x.pool.lock == if holding {
        LockState::Held(started as usize)
    } else {
        LockState::Free
    }
    &&& forall|i: int|
        0 <= i < size ==> (#[trigger] x.pool.workers[i]).id == i && x.pool.workers[i].joinable
            && x.pool.workers[i].state == if i < started {
            WorkerState::Executing
        } else if i == started && holding {
            WorkerState::WaitingForJob
        } else {
            WorkerState::WaitingForLock
        }
    &&& x.running.len() == size
    &&& forall|i: int|
        0 <= i < size ==> #[trigger] x.running[i] == if i < started {
            Some(i)
        } else {
            None
        }
    &&& x.finished.len() == 0
    &&& x.abandoned.len() == 0
    &&& x.joined.len() == 0
}

proof fn lemma_staged<J>(size: nat, jobs: Seq<J>, k: int)
    requires
        0 < size <= usize::MAX,
        jobs.len() <= size,
        0 <= k <= 3 * jobs.len(),
    ensures
        staged(
            Execution::replay(size, (submissions(jobs) + start_of_each(jobs.len())).take(k)),
            size,
            jobs,
            k,
        ),
    decreases k,
{
    let all = submissions(jobs) + start_of_each(jobs.len());
    if k == 0 {
        assert(all.take(0).len() == 0);
    } else {
        lemma_staged(size, jobs, k - 1);
        let before = Execution::replay(size, all.take(k - 1));
        let event = all[k - 1];
        assert(all.take(k).drop_last() =~= all.take(k - 1));
        assert(all.take(k).last() == event);
        let x = before.advance(event);
        assert(x == Execution::replay(size, all.take(k)));
        if k - 1 < jobs.len() {
            assert(event == PoolEvent::Submit(jobs[k - 1]));
            assert(before.pool.is_worker(0) && !before.pool.workers[0].state.is_terminal());
            assert(before.pool.can_accept());
        } else {
            let steps = k - 1 - jobs.len();
            let id = steps / 2;
            assert(event == PoolEvent::<J>::Step(id));
            assert(before.pool.is_worker(id));
            if steps % 2 == 1 {
                assert(before.pool.queue.len() > 0);
                assert(before.pool.action(id) == WorkerAction::Run(jobs[id]));
            }
        }
    }
}

/// Workers do not wait for one another's jobs: when no more jobs are
/// submitted than the pool has workers, all of them can be running at the
/// same time, before any run has ended. After the submissions, let one
/// worker after the other take the lock and receive: each is handed the
/// next job and gives the lock back, so that in the end job `i` is being
/// run by worker `i`, for every job.
pub proof fn law_jobs_start_in_parallel<J>(size: nat, jobs: Seq<J>)
    requires
        0 < size <= usize::MAX,
        jobs.len() <= size,
    ensures
        ({
            let x = Execution::replay(size, submissions(jobs) + start_of_each(jobs.len()));
            &&& x.handed == jobs
            &&& x.finished.len() == 0
            &&& forall|i: int|
                0 <= i < jobs.len() ==> (#[trigger] x.pool.workers[i]).state is Executing
                    && x.running[i] == Some(i)
        }),
{
    let all = submissions(jobs) + start_of_each(jobs.len());
    let end = 3 * jobs.len() as int;
    lemma_staged(size, jobs, end);
    assert(all.take(end) =~= all);
    let x = Execution::replay(size, all);
    assert(x.handed =~= jobs);
}

/// Shutdown is complete only when every worker has terminated, and from
/// then on nothing runs: no job is in a worker's hands, a step of any
/// worker changes nothing and tells it to exit, and a submission is refused.
pub proof fn law_shutdown_waits_for_every_worker<J>(size: nat, trace: Seq<PoolEvent<J>>)
    requires
        0 < size <= usize::MAX,
        Execution::replay(size, trace).pool.shutdown_action() is Done,
    ensures
        ({
            let x = Execution::replay(size, trace);
            &&& x.pool.shutdown_done()
            &&& x.pool.all_terminated()
            &&& x.joined.len() == size
            &&& forall|i: int| x.pool.is_worker(i) ==> (#[trigger] x.running[i]) is None
            &&& forall|id: int|
                (#[trigger] x.pool.step(id)) == x.pool && x.pool.action(id) == WorkerAction::<
                    J,
                >::Exit
            &&& forall|id: int| (#[trigger] x.pool.abort(id)) == x.pool
            &&& forall|job: J|
                (#[trigger] x.pool.submit(job)) == x.pool && x.pool.submit_result() == Err::<
                    (),
                    PoolError,
                >(PoolError::QueueClosed)
        }),
{
    let x = Execution::replay(size, trace);
    Execution::lemma_replay_sound(size, trace);
    Execution::lemma_replay_keeps_size(size, trace);
    x.pool.lemma_next_join();
    assert(x.pool.is_worker(0) && !x.pool.workers[0].joinable);
    assert forall|i: int| x.pool.is_worker(i) implies (#[trigger] x.pool.workers[i]).state.is_terminal() by {
        assert(!x.pool.workers[i].joinable);
    }
    assert(x.joined.len() == size) by {
        if x.joined.len() < size {
            assert(x.pool.workers[x.joined.len() as int].joinable);
        }
    }
    assert forall|i: int| x.pool.is_worker(i) implies (#[trigger] x.running[i]) is None by {
        assert(x.pool.workers[i].state.is_terminal());
    }
    assert forall|id: int|
        (#[trigger] x.pool.step(id)) == x.pool && x.pool.action(id) == WorkerAction::<J>::Exit by {
        if x.pool.is_worker(id) {
            assert(x.pool.workers[id].state.is_terminal());
        }
    }
    assert forall|id: int| (#[trigger] x.pool.abort(id)) == x.pool by {}
    assert(!x.pool.has_live_worker()) by {
        if x.pool.has_live_worker() {
            let i = choose|i: int|
                x.pool.is_worker(i) && !(#[trigger] x.pool.workers[i]).state.is_terminal();
            assert(x.pool.workers[i].state.is_terminal());
        }
    }
}

/// Shutdown leaves no worker blocked forever: while the sending side is
/// gone and some worker has not terminated, some worker can take a step
/// that is not a wait.
pub proof fn law_shutdown_is_never_stuck<J>(pool: PoolState<J>)
    requires
        pool.inv(),
        !pool.accepting,
        !pool.all_terminated(),
    ensures
        exists|id: int| pool.is_worker(id) && !(#[trigger] pool.action(id) is Wait),
{
    let live = choose|i: int|
        pool.is_worker(i) && !(#[trigger] pool.workers[i]).state.is_terminal();
    match pool.workers[live].state {
        WorkerState::WaitingForLock => match pool.lock {
            LockState::Held(holder) => {
                assert(pool.is_worker(holder as int) && !(pool.action(holder as int) is Wait));
            },
            _ => {
                assert(pool.is_worker(live) && !(pool.action(live) is Wait));
            },
        },
        _ => {
            assert(pool.is_worker(live) && !(pool.action(live) is Wait));
        },
    }
}

/// How far a worker in this state is from the end of its loop, were the
/// queue empty and closed.
pub open spec fn steps_left(state: WorkerState) -> nat {
    match state {
        WorkerState::Executing => 3,
        WorkerState::WaitingForLock => 2,
        WorkerState::WaitingForJob => 1,
        WorkerState::Stopped => 0,
        WorkerState::Failed => 0,
    }
}

/// The sum of `steps_left` over the first `upto` workers of `pool`.
pub open spec fn steps_left_upto<J>(pool: PoolState<J>, upto: int) -> nat
    decreases upto,
{
    if upto <= 0 {
        0
    } else {
        steps_left_upto(pool, upto - 1) + steps_left(pool.workers[upto - 1].state)
    }
}

/// A bound on the steps that a closed pool can still take: three for each
/// queued job, and for each worker what it needs to leave its loop.
pub open spec fn work_left<J>(pool: PoolState<J>) -> nat {
    3 * pool.queue.len() + steps_left_upto(pool, pool.workers.len() as int)
}

/// Two pools whose first `upto` workers are in the same states have the
/// same steps left among them; if they differ in worker `id` alone, the
/// sums differ by what that worker's state makes.
proof fn lemma_steps_left_change<J>(a: PoolState<J>, b: PoolState<J>, id: int, upto: int)
    requires
        a.workers.len() == b.workers.len(),
        0 <= upto <= a.workers.len(),
        forall|i: int| 0 <= i < upto && i != id ==> (#[trigger] a.workers[i]).state == b.workers[i].state,
    ensures
        0 <= id < upto ==> steps_left_upto(a, upto) - steps_left(a.workers[id].state)
            == steps_left_upto(b, upto) - steps_left(b.workers[id].state),
        !(0 <= id < upto) ==> steps_left_upto(a, upto) == steps_left_upto(b, upto),
    decreases upto,
{
    if upto > 0 {
        lemma_steps_left_change(a, b, id, upto - 1);
    }
}

/// Shutdown comes to an end: once the sending side is gone, every step of a
/// worker that changes the pool, and every death of a worker that changes
/// it, leaves less work than before.
pub proof fn law_shutdown_terminates<J>(pool: PoolState<J>, id: int)
    requires
        pool.inv(),
        !pool.accepting,
    ensures
        pool.step(id) == pool || work_left(pool.step(id)) < work_left(pool),
        pool.abort(id) == pool || work_left(pool.abort(id)) < work_left(pool),
{
    let n = pool.workers.len() as int;
    lemma_steps_left_change(pool, pool.step(id), id, n);
    lemma_steps_left_change(pool, pool.abort(id), id, n);
}

/// Shutdown is idempotent: once it has removed the sending side and taken
/// every handle, a further step of it finds no thread to join and changes
/// nothing.
pub proof fn law_shutdown_is_idempotent<J>(pool: PoolState<J>)
    requires
        pool.shutdown_done(),
    ensures
        pool.shutdown_action() is Done,
        pool.shutdown_step() == pool,
{
    pool.lemma_next_join();
    if pool.next_join() is Some {
        let id = pool.next_join().unwrap();
        assert(pool.workers[id].joinable);
    }
}

/// Shutdown joins every worker at most once, in order of id, only after it
/// has removed the sending side, and only once the worker has left its
/// loop: the ids given out for joining are `0, 1, 2, ...`, each names a
/// worker that has terminated, and the next one to be given out is the
/// first not yet given, until none is left.
pub proof fn law_workers_are_joined_once_in_order<J>(size: nat, trace: Seq<PoolEvent<J>>)
    requires
        0 < size <= usize::MAX,
    ensures
        ({
            let x = Execution::replay(size, trace);
            &&& x.joined.len() <= size
            &&& forall|p: int|
                0 <= p < x.joined.len() ==> #[trigger] x.joined[p] == p
                    && x.pool.workers[p].state.is_terminal()
            &&& x.joined.len() > 0 ==> !x.pool.accepting
            &&& x.pool.next_join() == if x.joined.len() < size {
                Some(x.joined.len() as int)
            } else {
                None
            }
        }),
{
    let x = Execution::replay(size, trace);
    Execution::lemma_replay_sound(size, trace);
    Execution::lemma_replay_keeps_size(size, trace);
    x.pool.lemma_next_join();
    if x.joined.len() > 0 {
        assert(x.pool.is_worker(0) && !x.pool.workers[0].joinable);
    }
    assert forall|p: int| 0 <= p < x.joined.len() implies #[trigger] x.joined[p] == p
        && x.pool.workers[p].state.is_terminal() by {
        assert(!x.pool.workers[p].joinable);
    }
    match x.pool.next_join() {
        Some(id) => {
            if id > x.joined.len() {
                assert(x.pool.workers[x.joined.len() as int].joinable);
            }
        },
        None => {
            if x.joined.len() < size {
                assert(x.pool.workers[x.joined.len() as int].joinable);
            }
        },
    }
}

/// A pool is either active or shutting down, never both: while it accepts
/// work, no worker has stopped and no handle has been taken; once a worker
/// has stopped or a handle has been taken, it accepts no work. A worker
/// stops only when the queue is empty. Every worker keeps its id.
pub proof fn law_pool_is_active_or_shutting_down<J>(size: nat, trace: Seq<PoolEvent<J>>)
    requires
        0 < size <= usize::MAX,
    ensures
        ({
            let x = Execution::replay(size, trace);
            &&& x.pool.size() == size
            &&& forall|i: int| x.pool.is_worker(i) ==> (#[trigger] x.pool.workers[i]).id == i
            &&& x.pool.accepting ==> x.joined.len() == 0 && forall|i: int|
                x.pool.is_worker(i) ==> (#[trigger] x.pool.workers[i]).joinable
                    && !(x.pool.workers[i].state is Stopped)
            &&& forall|i: int|
                x.pool.is_worker(i) && (#[trigger] x.pool.workers[i]).state is Stopped
                    ==> x.pool.queue.len() == 0
        }),
{
    let x = Execution::replay(size, trace);
    Execution::lemma_replay_sound(size, trace);
    Execution::lemma_replay_keeps_size(size, trace);
    if x.pool.accepting && x.joined.len() > 0 {
        assert(x.pool.is_worker(0) && !x.pool.workers[0].joinable);
    }
}

/// The lock is held only by a worker that waits for a job, and by no other:
/// a worker that runs a job has given the lock back.
pub proof fn law_lock_is_released_before_a_job_runs<J>(size: nat, trace: Seq<PoolEvent<J>>)
    requires
        0 < size <= usize::MAX,
    ensures
        ({
            let x = Execution::replay(size, trace);
            &&& forall|i: int|
                x.pool.is_worker(i) ==> ((#[trigger] x.pool.workers[i]).state is WaitingForJob
                    <==> x.pool.lock == LockState::Held(i as usize))
            &&& forall|i: int|
                x.pool.is_worker(i) && (#[trigger] x.pool.workers[i]).state is Executing
                    ==> x.pool.lock != LockState::Held(i as usize)
        }),
{
    let x = Execution::replay(size, trace);
    Execution::lemma_replay_sound(size, trace);
    Execution::lemma_replay_keeps_size(size, trace);
    assert forall|i: int| x.pool.is_worker(i) && x.pool.lock == LockState::Held(
        i as usize,
    ) implies (#[trigger] x.pool.workers[i]).state is WaitingForJob by {
        assert(x.pool.workers[i].id == i);
    }
}

/// Jobs that are being run hold nobody up: while a job is queued and some
/// worker is waiting, for the lock or for a job, one of the waiting workers
/// can take a step that is not a wait, however many jobs are being run and
/// however long they take.
pub proof fn law_running_jobs_hold_nobody_up<J>(pool: PoolState<J>, idle: int)
    requires
        pool.inv(),
        pool.queue.len() > 0,
        pool.is_worker(idle),
        pool.workers[idle].state is WaitingForLock || pool.workers[idle].state is WaitingForJob,
    ensures
        exists|id: int|
            pool.is_worker(id) && !(pool.workers[id].state is Executing) && !(
            #[trigger] pool.action(id) is Wait),
{
    match pool.lock {
        LockState::Held(holder) => {
            assert(pool.is_worker(holder as int) && !(pool.action(holder as int) is Wait));
        },
        _ => {
            assert(pool.is_worker(idle) && !(pool.action(idle) is Wait));
        },
    }
}

/// Whoever is told to wait loses nothing by waiting: a step of a worker
/// that answers `Wait` leaves the pool as it was, and so does a step of
/// shutdown that answers `Wait` once the sending side is gone. Until
/// something else happens to the pool, the same step gives the same answer.
pub proof fn law_a_wait_changes_nothing<J>(pool: PoolState<J>, id: int)
    ensures
        pool.action(id) is Wait ==> pool.step(id) == pool,
        pool.shutdown_action() is Wait ==> pool.shutdown_step().shutdown_step()
            == pool.shutdown_step() && pool.shutdown_step().shutdown_action() is Wait,
        pool.shutdown_action() is Wait && !pool.accepting ==> pool.shutdown_step() == pool,
{
    if pool.shutdown_action() is Wait {
        let closed = pool.shutdown_step();
        assert(closed.workers == pool.workers);
        assert forall|i: int| closed.is_next_join(i) == pool.is_next_join(i) by {}
        assert(closed.next_join() == pool.next_join());
    }
}

} // verus!
