//! Synchronization primitives.
//!
//! Every primitive is a state machine that is driven one step at a time.
//! A step runs without interruption; where the calling thread would have to
//! wait, the step returns and says what to wait for. Whoever drives the
//! primitive switches threads and takes the next step once the caller runs
//! again.

pub mod disable_interrupts;
pub mod owned_lock;
pub mod mutex;
pub mod cond;
pub mod exchange;
pub mod rwlock;
