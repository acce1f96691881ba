use rust_scratch_pad::error::PoolError;
use rust_scratch_pad::queue::{Received, SharedQueue};

#[test]
fn a_new_queue_is_empty_and_open() {
    let q: SharedQueue<u8> = SharedQueue::new();
    assert_eq!(0, q.len());
    assert!(q.has_sender());
    assert!(q.has_receiver());
}

#[test]
fn jobs_leave_in_the_order_they_arrived() {
    let mut q = SharedQueue::new();
    assert_eq!(Ok(()), q.send('a'));
    assert_eq!(Ok(()), q.send('b'));
    assert_eq!(Ok(()), q.send('c'));
    assert_eq!(3, q.len());
    assert_eq!(Received::Job('a'), q.receive());
    assert_eq!(Received::Job('b'), q.receive());
    assert_eq!(Ok(()), q.send('d'));
    assert_eq!(Received::Job('c'), q.receive());
    assert_eq!(Received::Job('d'), q.receive());
    assert_eq!(0, q.len());
}

#[test]
fn an_empty_open_queue_makes_the_receiver_wait() {
    let mut q: SharedQueue<u8> = SharedQueue::new();
    assert_eq!(Received::Empty, q.receive());
    assert_eq!(Received::Empty, q.receive());
    assert_eq!(Ok(()), q.send(1));
    assert_eq!(Received::Job(1), q.receive());
    assert_eq!(Received::Empty, q.receive());
}

#[test]
fn closure_is_reported_only_once_the_queue_is_empty() {
    let mut q = SharedQueue::new();
    assert_eq!(Ok(()), q.send(10));
    assert_eq!(Ok(()), q.send(20));
    q.close_sender();
    assert!(!q.has_sender());
    assert_eq!(2, q.len());
    assert_eq!(Received::Job(10), q.receive());
    assert_eq!(Received::Job(20), q.receive());
    assert_eq!(Received::Closed, q.receive());
    assert_eq!(Received::Closed, q.receive());
}

#[test]
fn send_without_sender_is_refused() {
    let mut q = SharedQueue::new();
    q.close_sender();
    assert_eq!(Err(PoolError::QueueClosed), q.send(1));
    assert_eq!(0, q.len());
    assert_eq!(Received::Closed, q.receive());
}

#[test]
fn send_without_receiver_is_refused() {
    let mut q = SharedQueue::new();
    assert_eq!(Ok(()), q.send(1));
    q.close_receiver();
    assert!(!q.has_receiver());
    assert!(q.has_sender());
    assert_eq!(Err(PoolError::QueueClosed), q.send(2));
    assert_eq!(1, q.len());
}
