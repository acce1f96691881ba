//! The shared queue: a FIFO list of jobs with a sending and a receiving side.

use vstd::prelude::*;
use std::collections::VecDeque;
use crate::error::PoolError;

verus! {

/// What the queue is, as a value: the jobs in arrival order and which of
/// its two sides are still there.
pub struct QueueState<J> {
    pub jobs: Seq<J>,
    pub sender: bool,
    pub receiver: bool,
}

/// The answer to a receive.
#[derive(Debug, PartialEq, Eq)]
pub enum Received<J> {
    /// The head of the queue, now removed from it.
    Job(J),
    /// The queue is empty and the sending side is gone: no job will ever come.
    Closed,
    /// The queue is empty but a job may still come: the caller has to wait.
    Empty,
}

/// An unbounded FIFO queue of jobs.
///
/// Jobs leave in the order in which they arrived, each exactly once. Jobs
/// that are still queued when the sending side goes away are still handed
/// out; closure is reported only once the queue has run empty.
pub struct SharedQueue<J> {
    jobs: VecDeque<J>,
    sender: bool,
    receiver: bool,
}

impl<J> View for SharedQueue<J> {
    type V = QueueState<J>;

    closed spec fn view(&self) -> QueueState<J> {
        QueueState { jobs: self.jobs@, sender: self.sender, receiver: self.receiver }
    }
}

impl<J> SharedQueue<J> {
    /// An empty queue with both sides present.
    pub fn new() -> (q: Self)
        ensures
            q@ == (QueueState { jobs: Seq::<J>::empty(), sender: true, receiver: true }),
    {
        SharedQueue { jobs: VecDeque::new(), sender: true, receiver: true }
    }

    /// Appends `job`, unless one of the two sides is gone: then the job is
    /// refused with `QueueClosed` and the queue stays as it was.
    pub fn send(&mut self, job: J) -> (r: Result<(), PoolError>)
        ensures
            old(self)@.sender && old(self)@.receiver ==> r == Ok::<(), PoolError>(())
                && final(self)@ == (QueueState { jobs: old(self)@.jobs.push(job), ..old(self)@ }),
            !(old(self)@.sender && old(self)@.receiver) ==> r == Err::<(), PoolError>(
                PoolError::QueueClosed,
            ) && final(self)@ == old(self)@,
    {
        if self.sender && self.receiver {
            self.jobs.push_back(job);
            Ok(())
        } else {
            Err(PoolError::QueueClosed)
        }
    }

    /// Removes and returns the head job if there is one. On an empty queue,
    /// reports `Closed` if the sending side is gone and `Empty` otherwise.
    pub fn receive(&mut self) -> (r: Received<J>)
        ensures
            old(self)@.jobs.len() > 0 ==> r == Received::Job(old(self)@.jobs[0])
                && final(self)@ == (QueueState { jobs: old(self)@.jobs.drop_first(), ..old(self)@ }),
            old(self)@.jobs.len() == 0 && old(self)@.sender ==> r == Received::<J>::Empty
                && final(self)@ == old(self)@,
            old(self)@.jobs.len() == 0 && !old(self)@.sender ==> r == Received::<J>::Closed
                && final(self)@ == old(self)@,
    {
        match self.jobs.pop_front() {
            Some(job) => Received::Job(job),
            None => if self.sender {
                Received::Empty
            } else {
                Received::Closed
            },
        }
    }

    /// Removes the sending side. Queued jobs stay.
    pub fn close_sender(&mut self)
        ensures
            final(self)@ == (QueueState { sender: false, ..old(self)@ }),
    {
        self.sender = false;
    }

    /// Removes the receiving side. Queued jobs stay, out of reach.
    pub fn close_receiver(&mut self)
        ensures
            final(self)@ == (QueueState { receiver: false, ..old(self)@ }),
    {
        self.receiver = false;
    }

    /// The number of queued jobs.
    pub fn len(&self) -> (n: usize)
        ensures
            n == self@.jobs.len(),
    {
        self.jobs.len()
    }

    /// Whether the sending side is present.
    pub fn has_sender(&self) -> (b: bool)
        ensures
            b == self@.sender,
    {
        self.sender
    }

    /// Whether the receiving side is present.
    pub fn has_receiver(&self) -> (b: bool)
        ensures
            b == self@.receiver,
    {
        self.receiver
    }
}

} // verus!
