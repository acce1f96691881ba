//! The ways in which the pool can refuse or fail.

use vstd::prelude::*;

verus! {

/// Every failure the pool reports.
#[derive(Clone, Copy, Debug, PartialEq, Eq, Structural)]
pub enum PoolError {
    /// A pool was requested with zero workers.
    InvalidPoolSize,
    /// The queue lock was left poisoned by a worker that died holding it.
    LockPoisoned,
    /// A job was submitted after the sending side was removed, or when no
    /// worker is left to receive it.
    QueueClosed,
}

} // verus!
