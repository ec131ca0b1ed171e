//! Tasks, as far as threads need to name them.

use vstd::prelude::*;

verus! {

/// The control block of a task. Threads refer to the task that owns them;
/// what a task holds beyond its identity is no concern of the thread and
/// memory core.
#[derive(Clone, Copy, Debug, PartialEq, Eq, Structural)]
pub struct TaskBlock;

} // verus!
