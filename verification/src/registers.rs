//! Register frames as the processor and the entry stubs leave them on a
//! kernel stack.

use vstd::prelude::*;

verus! {

/// The general-purpose registers, in the order `pusha` stores them.
#[derive(Debug, Copy, Clone, Default)]
pub struct Registers {
    pub edi: u32,
    pub esi: u32,
    pub ebp: u32,
    pub esp: u32,
    pub ebx: u32,
    pub edx: u32,
    pub ecx: u32,
    pub eax: u32,
}

/// What is on the stack after an interrupt: the saved registers, the segment
/// selectors and the frame that `iret` consumes.
#[derive(Debug, Copy, Clone, Default)]
pub struct SuspendedState {
    pub reg: Registers,
    pub gs: u32,
    pub fs: u32,
    pub es: u32,
    pub ds: u32,
    pub eip: u32,
    pub cs: u32,
    pub eflags: u32,
    pub esp: u32,
    pub ss: u32,
}

/// What is on the stack after an exception: as after an interrupt, with the
/// error code that the processor pushed.
#[derive(Debug, Copy, Clone, Default)]
pub struct ExceptionState {
    pub reg: Registers,
    pub gs: u32,
    pub fs: u32,
    pub es: u32,
    pub ds: u32,
    pub err: u32,
    pub eip: u32,
    pub cs: u32,
    pub eflags: u32,
    pub esp: u32,
    pub ss: u32,
}

} // verus!
