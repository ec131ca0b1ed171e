//! Setting up single thread control blocks.

#![allow(non_snake_case)]

use crate::registers::{Registers, SuspendedState};
use crate::thread::thread_internal::{ThreadBlock, KERNEL_STACK_SIZE};
use vstd::prelude::*;

verus! {

/// What lies at the top of the kernel stack of a thread that has never run:
/// a frame from which the first switch to the thread returns into user mode
/// with `state`.
#[derive(Debug, Copy, Clone)]
pub struct InitialThreadState {
    pub ignoredRegisters: Registers,
    pub ignoredEax: u32,
    pub returnAddress: u32,
    pub ignoredEbp: u32,
    pub state: SuspendedState,
}

/// Bytes of an `InitialThreadState` on the stack: eight registers, three
/// words, and the seventeen words of the suspended state.
pub const INITIAL_THREAD_STATE_SIZE: usize = 112;

impl ThreadBlock {
    /// A control block that belongs to no task and has an empty stack.
    pub fn new() -> (block: ThreadBlock)
        ensures
            block.tid == 0,
            block.task is None,
            !block.inKernelDirectory,
            block.kernelStackOffset == KERNEL_STACK_SIZE,
            !block.free,
            !block.scheduled,
            !block.userDescheduled,
            block.suspendedUserState is None,
            block.swexnHandler is None,
            block.esp3 is None,
            block.exnUreg is None,
            block.refCount == 0,
            block.disabledInterruptsRefCount == 0,
    {
        ThreadBlock {
            tid: 0,
            task: None,
            inKernelDirectory: false,
            kernelStackOffset: KERNEL_STACK_SIZE,
            free: false,
            scheduled: false,
            userDescheduled: false,
            suspendedUserState: None,
            swexnHandler: None,
            esp3: None,
            exnUreg: None,
            refCount: 0,
            disabledInterruptsRefCount: 0,
        }
    }

    /// The thread's identifier.
    pub fn tid(&self) -> (tid: i32)
        ensures
            tid == self.tid,
    {
        self.tid
    }

    /// The task that the thread belongs to.
    pub fn task(&self) -> (task: Option<usize>)
        ensures
            task == self.task,
    {
        self.task
    }

    /// Loads the state with which the thread starts: it belongs to `task`,
    /// and its stack holds one initial frame with the user-mode state
    /// `state`.
    pub fn load(&mut self, task: Option<usize>, state: SuspendedState)
        ensures
            *final(self) == (ThreadBlock {
                task,
                kernelStackOffset: (KERNEL_STACK_SIZE - INITIAL_THREAD_STATE_SIZE) as usize,
                suspendedUserState: Some(state),
                ..*old(self)
            }),
    {
        self.task = task;
        self.kernelStackOffset = KERNEL_STACK_SIZE - INITIAL_THREAD_STATE_SIZE;
        self.suspendedUserState = Some(state);
    }
}

} // verus!
