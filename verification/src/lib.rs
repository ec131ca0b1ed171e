//! Core of a small preemptive kernel for 32-bit x86: its synchronization
//! and scheduling substrate and its virtual-memory manager.
//!
//! Everything here is sequential code over explicit state. What the kernel
//! proper keeps in globals and reaches through pointers is held in values
//! that are handed to the functions: the `Kernel` with the thread control
//! blocks and the schedule, the `Mmu` with the state of the paging unit, and
//! the frame allocator with the kernel's directory. Nothing switches stacks,
//! touches a control register or blocks. A function that would do so says
//! what is to be done, and leaves the doing to its caller:
//!
//! * `variable_queue`: intrusive doubly-linked queues over arenas of link
//!   slots;
//! * `sync`: interrupt guards, the owned lock, mutexes, condition variables
//!   and reader/writer locks, each as a state machine that is driven step
//!   by step;
//! * `thread`: thread control blocks, the run queue, and the decisions of
//!   a context switch;
//! * `virtual_memory` and `vm`: addresses and page entries, directories and
//!   tables, the mapping strategies, the frame allocator, and the checks on
//!   user memory;
//! * `byte_utils`, `idt_entry`, `registers`, `task`: the small parts that
//!   the rest is built on.

pub mod byte_utils;
pub mod idt_entry;
pub mod registers;
pub mod sync;
pub mod task;
pub mod thread;
pub mod variable_queue;
pub mod virtual_memory;
pub mod vm;
