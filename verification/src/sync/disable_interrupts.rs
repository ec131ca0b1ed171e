//! Guards for disabled interrupts.
//!
//! Interrupts are off while at least one guard is held. The guards are
//! counted on the thread that runs, and on the boot context while no thread
//! runs, so that a thread takes its guards with it when it is switched out.
//! Whoever takes a guard turns interrupts off; whoever gives the last guard
//! back turns them on again.

#![allow(non_snake_case)]

use crate::thread::{Kernel, ThreadBlock};
use vstd::prelude::*;

verus! {

/// Evidence that interrupts are off.
pub struct DisabledInterruptsGuard {
    held: (),
}

/// Number of guards that the running thread holds, or the boot context
/// while no thread runs.
pub open spec fn guards_held(kernel: &Kernel) -> u32 {
    match kernel.current {
        Some(h) => kernel.blocks[h.0 as int].disabledInterruptsRefCount,
        None => kernel.noThreadRefCount,
    }
}

/// Interrupts are on for what runs now: it holds no guard.
pub open spec fn interrupts_enabled(kernel: &Kernel) -> bool {
    guards_held(kernel) == 0
}

/// The kernel with the count of guards of what runs now set to `count`.
pub open spec fn with_guards(pre: &Kernel, post: &Kernel, count: u32) -> bool {
    match pre.current {
        Some(h) => post.same_but_blocks(pre) && post.blocks@ == pre.blocks@.update(
            h.0 as int,
            ThreadBlock { disabledInterruptsRefCount: count, ..pre.blocks[h.0 as int] },
        ),
        None => post.blocks == pre.blocks && post.links == pre.links && post.scheduleLinks
            == pre.scheduleLinks && post.taskLinks == pre.taskLinks && post.current == pre.current
            && post.sched == pre.sched && post.activeColl == pre.activeColl && post.freeColl
            == pre.freeColl && post.noThreadRefCount == count,
    }
}

/// Takes a guard: what runs now holds one guard more, and interrupts are
/// off.
pub fn disableInterrupts(kernel: &mut Kernel) -> (guard: DisabledInterruptsGuard)
    requires
        old(kernel).wf(),
        guards_held(old(kernel)) < u32::MAX,
    ensures
        final(kernel).wf(),
        with_guards(old(kernel), final(kernel), (guards_held(old(kernel)) + 1) as u32),
        guards_held(final(kernel)) == guards_held(old(kernel)) + 1,
        !interrupts_enabled(final(kernel)),
{
    match kernel.current {
        None => {
            kernel.noThreadRefCount = kernel.noThreadRefCount + 1;
        },
        Some(thread) => {
            let mut block = kernel.blocks[thread.0];
            block.disabledInterruptsRefCount = block.disabledInterruptsRefCount + 1;
            kernel.blocks.set(thread.0, block);
        },
    }
    proof {
        lemma_guards_keep_wf(old(kernel), kernel, (guards_held(old(kernel)) + 1) as u32);
    }
    DisabledInterruptsGuard { held: () }
}

/// Gives a guard back: what runs now holds one guard less. Returns whether
/// that was its last guard, so that interrupts are to be turned on again.
pub fn enableInterrupts(kernel: &mut Kernel, guard: DisabledInterruptsGuard) -> (reenabled: bool)
    requires
        old(kernel).wf(),
    ensures
        final(kernel).wf(),
        with_guards(
            old(kernel),
            final(kernel),
            if guards_held(old(kernel)) > 0 {
                (guards_held(old(kernel)) - 1) as u32
            } else {
                0
            },
        ),
        reenabled == interrupts_enabled(final(kernel)),
        reenabled == (guards_held(old(kernel)) <= 1),
{
    let refCount = match kernel.current {
        None => {
            if kernel.noThreadRefCount > 0 {
                kernel.noThreadRefCount = kernel.noThreadRefCount - 1;
            }
            kernel.noThreadRefCount
        },
        Some(thread) => {
            let mut block = kernel.blocks[thread.0];
            if block.disabledInterruptsRefCount > 0 {
                block.disabledInterruptsRefCount = block.disabledInterruptsRefCount - 1;
            }
            kernel.blocks.set(thread.0, block);
            block.disabledInterruptsRefCount
        },
    };
    proof {
        lemma_guards_keep_wf(
            old(kernel),
            kernel,
            if guards_held(old(kernel)) > 0 {
                (guards_held(old(kernel)) - 1) as u32
            } else {
                0
            },
        );
    }
    refCount == 0
}

/// Counting guards leaves the kernel in order.
pub proof fn lemma_guards_keep_wf(pre: &Kernel, post: &Kernel, count: u32)
    requires
        pre.wf(),
        with_guards(pre, post, count),
    ensures
        post.wf(),
{
    assert forall|i: int| 0 <= i < post.blocks.len()
        implies #[trigger] crate::thread::scheduler::is_scheduled(
        post,
        i,
    ) == crate::thread::scheduler::ring(post).contains(i as usize) by {
        assert(crate::thread::scheduler::is_scheduled(pre, i) == crate::thread::scheduler::ring(
            pre,
        ).contains(i as usize));
    }
}

} // verus!
