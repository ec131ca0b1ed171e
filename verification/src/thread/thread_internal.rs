//! The thread control block.

#![allow(non_snake_case)]

use crate::registers::SuspendedState;
use vstd::prelude::*;

verus! {

/// Bytes of a kernel stack, the control block at its base included.
pub const KERNEL_STACK_SIZE: usize = 2048;

/// The thread id that names no thread.
pub const TID_NOT_A_THREAD: i32 = -1;

/// What the kernel keeps about one thread. The block lies at the base of the
/// thread's kernel stack; the stack grows down towards it from offset
/// `KERNEL_STACK_SIZE`.
#[derive(Clone, Copy, Debug)]
pub struct ThreadBlock {
    /// Unique thread identifier.
    pub tid: i32,
    /// The task that the thread belongs to.
    pub task: Option<usize>,
    /// Whether the thread was in the kernel's address space when it was
    /// suspended.
    pub inKernelDirectory: bool,
    /// Offset from the block to the top of the saved register frame.
    pub kernelStackOffset: usize,
    /// Whether the block belongs to no thread at present.
    pub free: bool,
    /// Whether the thread is on the run queue.
    pub scheduled: bool,
    /// Whether the thread was taken off the run queue at the user's request.
    pub userDescheduled: bool,
    /// The user-mode state saved at the last switch into the kernel.
    pub suspendedUserState: Option<SuspendedState>,
    /// Address of the exception handler that the thread has registered.
    pub swexnHandler: Option<u32>,
    /// Top of the stack that the registered handler runs on.
    pub esp3: Option<u32>,
    /// Where on that stack the registers at the exception are handed over.
    pub exnUreg: Option<u32>,
    /// Number of handles to the block that are out, and one more while the
    /// thread is on the run queue.
    pub refCount: u32,
    /// Number of interrupt guards that the thread holds.
    pub disabledInterruptsRefCount: u32,
}

} // verus!
