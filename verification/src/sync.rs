//! Blocking synchronization primitives and the deadlock-avoidance check.

pub mod condvar;
pub mod deadlock;
pub mod ledger;
pub mod mutex;
pub mod semaphore;
pub mod waiters;
