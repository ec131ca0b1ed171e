//! Switching the thread that runs.
//!
//! A switch has two halves. The first decides whether and to which thread to
//! switch; that is `yieldThread` and its variants. The second is made by
//! whoever owns the stacks: the registers of the thread that runs are saved
//! on its stack, `saveAndContinue` records where, and the thread it returns
//! is resumed from the frame that it saved when it was switched out.

#![allow(non_snake_case)]

use crate::sync::disable_interrupts::{
    disableInterrupts, enableInterrupts, guards_held, with_guards, DisabledInterruptsGuard,
};
use crate::thread::scheduler::{cursor, cursor_moved, getNextThread, ring, ring_next};
use crate::thread::thread_internal::KERNEL_STACK_SIZE;
use crate::thread::{Kernel, ThreadBlock, ThreadHandle};
use vstd::prelude::*;

verus! {

/// Where a saved register frame lies: its offset from the control block of
/// its thread.
pub type Continuation = usize;

/// A switch that has been decided on and is still to be made.
pub struct Switch {
    /// The thread to switch to.
    pub target: ThreadHandle,
    /// The guard under which the switch is made. The thread that yields
    /// gives it back once it runs again.
    pub guard: DisabledInterruptsGuard,
}

/// The thread that runs.
pub fn getCurrentThread(kernel: &Kernel) -> (thread: Option<ThreadHandle>)
    ensures
        thread == kernel.current,
{
    kernel.current
}

/// The task of the thread that runs.
pub fn getCurrentTask(kernel: &Kernel) -> (task: Option<usize>)
    requires
        kernel.shaped(),
    ensures
        task == match kernel.current {
            Some(h) => kernel.blocks[h.0 as int].task,
            None => None,
        },
{
    match kernel.current {
        Some(thread) => kernel.blocks[thread.0].task(),
        None => None,
    }
}

/// Records in `thread` where its registers were saved, and whether the
/// kernel's address space was loaded at that time.
pub fn saveContinuationTo(thread: &mut ThreadBlock, cont: Continuation, inKernelDirectory: bool)
    ensures
        *final(thread)
            == (ThreadBlock { kernelStackOffset: cont, inKernelDirectory, ..*old(thread) }),
{
    thread.kernelStackOffset = cont;
    thread.inKernelDirectory = inKernelDirectory;
}

/// The second half of a switch: records where the registers of the thread
/// that runs were saved, and makes `next` the thread that runs. Returns the
/// frame to resume `next` from.
pub fn saveAndContinue(
    kernel: &mut Kernel,
    cont: Continuation,
    inKernelDirectory: bool,
    next: ThreadHandle,
) -> (resume: Continuation)
    requires
        old(kernel).wf(),
        old(kernel).knows(next),
    ensures
        final(kernel).wf(),
        final(kernel).current == Some(next),
        final(kernel).links == old(kernel).links,
        final(kernel).scheduleLinks == old(kernel).scheduleLinks,
        final(kernel).taskLinks == old(kernel).taskLinks,
        final(kernel).sched == old(kernel).sched,
        final(kernel).noThreadRefCount == old(kernel).noThreadRefCount,
        final(kernel).activeColl == old(kernel).activeColl,
        final(kernel).freeColl == old(kernel).freeColl,
        final(kernel).blocks@ == match old(kernel).current {
            Some(h) => old(kernel).blocks@.update(
                h.0 as int,
                ThreadBlock {
                    kernelStackOffset: cont,
                    inKernelDirectory,
                    ..old(kernel).blocks[h.0 as int]
                },
            ),
            None => old(kernel).blocks@,
        },
        resume == final(kernel).blocks[next.0 as int].kernelStackOffset,
{
    match kernel.current {
        Some(curr) => {
            let mut block = kernel.blocks[curr.0];
            saveContinuationTo(&mut block, cont, inKernelDirectory);
            kernel.blocks.set(curr.0, block);
        },
        None => {},
    }
    proof {
        assert forall|i: int| 0 <= i < kernel.blocks.len()
            implies #[trigger] crate::thread::scheduler::is_scheduled(
            kernel,
            i,
        ) == ring(kernel).contains(i as usize) by {
            assert(crate::thread::scheduler::is_scheduled(old(kernel), i) == ring(
                old(kernel),
            ).contains(i as usize));
        }
    }
    continueThread(kernel, next)
}

/// The kernel after a yield by what runs now, going by the state before
/// it: what runs now holds `count` guards, and everything outside the
/// schedule is as before.
pub open spec fn guards_counted(pre: &Kernel, post: &Kernel, count: u32) -> bool {
    &&& post.current == pre.current
    &&& post.links == pre.links
    &&& post.scheduleLinks == pre.scheduleLinks
    &&& post.taskLinks == pre.taskLinks
    &&& post.activeColl == pre.activeColl
    &&& post.freeColl == pre.freeColl
    &&& ring(post) == ring(pre)
    &&& match pre.current {
        Some(h) => post.noThreadRefCount == pre.noThreadRefCount && post.blocks@
            == pre.blocks@.update(
            h.0 as int,
            ThreadBlock { disabledInterruptsRefCount: count, ..pre.blocks[h.0 as int] },
        ),
        None => post.noThreadRefCount == count && post.blocks@ == pre.blocks@,
    }
}

/// What a yield by what runs now does, where `target` is the thread that
/// the switch goes to, if any. The target is the thread that `yield_target`
/// names. Where the switch is decided, what runs now holds one guard more:
/// the guard of the switch. A yield to the next thread of the ring moves
/// the cursor on; the schedule is as before but for the cursor. Nothing
/// else changes.
pub open spec fn yielded(
    pre: &Kernel,
    thread: Option<ThreadHandle>,
    post: &Kernel,
    target: Option<ThreadHandle>,
) -> bool {
    &&& target == yield_target(pre, thread)
    &&& guards_counted(
        pre,
        post,
        if target is Some {
            (guards_held(pre) + 1) as u32
        } else {
            guards_held(pre)
        },
    )
    &&& cursor_moved(pre, post)
    &&& cursor(post) == if thread is Some {
        cursor(pre)
    } else {
        match cursor(pre) {
            Some(curr) => ring_next(ring(pre), curr.0),
            None => None,
        }
    }
}

/// The thread that a decided switch goes to.
pub open spec fn target_of(outcome: Result<Switch, ()>) -> Option<ThreadHandle> {
    match outcome {
        Ok(switch) => Some(switch.target),
        Err(_) => None,
    }
}

/// The first half of a switch, with interrupts turned off for it. With a
/// target, the switch goes to that thread, which must be scheduled. Without
/// one, it goes to the next thread of the ring, and the cursor moves on.
/// Where the switch is decided, what runs now holds one guard more: the
/// guard of the switch. On failure the guard is given back and nothing has
/// changed but the cursor of the ring.
pub fn yieldThread(kernel: &mut Kernel, thread: Option<ThreadHandle>)
    -> (outcome: Result<Switch, ()>)
    requires
        old(kernel).wf(),
        guards_held(old(kernel)) < u32::MAX,
        thread matches Some(h) ==> old(kernel).knows(h),
    ensures
        final(kernel).wf(),
        yielded(old(kernel), thread, final(kernel), target_of(outcome)),
{
    let disabledInterrupts = disableInterrupts(kernel);
    let ghost taken = *kernel;
    match yieldThreadWithoutInterrupts(kernel, &disabledInterrupts, thread) {
        Ok(target) => {
            proof {
                assert(kernel.blocks@ == taken.blocks@);
            }
            Ok(Switch { target, guard: disabledInterrupts })
        },
        Err(_) => {
            let ghost tried = *kernel;
            enableInterrupts(kernel, disabledInterrupts);
            proof {
                assert(tried.blocks@ == taken.blocks@);
                match old(kernel).current {
                    Some(h) => {
                        assert(kernel.blocks@ =~= old(kernel).blocks@);
                        assert(old(kernel).blocks@.update(
                            h.0 as int,
                            ThreadBlock {
                                disabledInterruptsRefCount: guards_held(old(kernel)),
                                ..old(kernel).blocks[h.0 as int]
                            },
                        ) =~= old(kernel).blocks@);
                    },
                    None => {},
                }
            }
            Err(())
        },
    }
}

/// The thread that a yield goes to: the target where one is given and it
/// is scheduled, the thread that the cursor names where none is given.
pub open spec fn yield_target(kernel: &Kernel, thread: Option<ThreadHandle>)
    -> Option<ThreadHandle> {
    match thread {
        Some(h) => if kernel.blocks[h.0 as int].scheduled {
            Some(h)
        } else {
            None
        },
        None => cursor(kernel),
    }
}

/// The first half of a switch, for a caller that has interrupts off
/// already.
pub fn yieldThreadWithoutInterrupts(
    kernel: &mut Kernel,
    disabledInterrupts: &DisabledInterruptsGuard,
    thread: Option<ThreadHandle>,
) -> (outcome: Result<ThreadHandle, ()>)
    requires
        old(kernel).wf(),
        thread matches Some(h) ==> old(kernel).knows(h),
    ensures
        final(kernel).wf(),
        final(kernel).same_but_schedule(old(kernel)),
        final(kernel).blocks == old(kernel).blocks,
        final(kernel).scheduleLinks == old(kernel).scheduleLinks,
        ring(final(kernel)) == ring(old(kernel)),
        cursor_moved(old(kernel), final(kernel)),
        outcome == match yield_target(old(kernel), thread) {
            Some(h) => Ok::<ThreadHandle, ()>(h),
            None => Err::<ThreadHandle, ()>(()),
        },
        outcome matches Ok(h) ==> final(kernel).knows(h)
            && final(kernel).blocks[h.0 as int].scheduled
            && ring(final(kernel)).contains(h.0),
        thread is Some ==> *final(kernel) == *old(kernel),
        thread is None ==> cursor(final(kernel)) == match cursor(old(kernel)) {
            Some(curr) => ring_next(ring(old(kernel)), curr.0),
            None => None,
        },
{
    let target = match thread {
        Some(thread) => Some(thread),
        None => getNextThread(kernel, disabledInterrupts),
    };
    match target {
        Some(target) => {
            proof {
                if thread is None {
                    kernel.sched.lock.data.queue.lemma_members_marked(
                        kernel.scheduleLinks@,
                        target.0,
                    );
                }
                assert(crate::thread::scheduler::is_scheduled(kernel, target.0 as int) == ring(
                    kernel,
                ).contains(target.0));
            }
            yieldThreadTo(kernel, disabledInterrupts, target)
        },
        None => Err(()),
    }
}

/// The first half of a switch to a given thread: the switch is granted
/// exactly when the thread is scheduled.
pub fn yieldThreadTo(
    kernel: &Kernel,
    disabledInterrupts: &DisabledInterruptsGuard,
    thread: ThreadHandle,
) -> (outcome: Result<ThreadHandle, ()>)
    requires
        kernel.knows(thread),
    ensures
        outcome == if kernel.blocks[thread.0 as int].scheduled {
            Ok::<ThreadHandle, ()>(thread)
        } else {
            Err::<ThreadHandle, ()>(())
        },
{
    if !kernel.blocks[thread.0].scheduled {
        Err(())
    } else {
        Ok(thread)
    }
}

/// Makes `thread` the thread that runs and returns the frame to resume it
/// from: the offset of its saved registers from its control block. Its
/// kernel stack ends `KERNEL_STACK_SIZE` bytes above the block.
pub fn continueThread(kernel: &mut Kernel, thread: ThreadHandle) -> (resume: Continuation)
    requires
        old(kernel).wf(),
        old(kernel).knows(thread),
    ensures
        final(kernel).wf(),
        final(kernel).current == Some(thread),
        final(kernel).blocks == old(kernel).blocks,
        final(kernel).links == old(kernel).links,
        final(kernel).scheduleLinks == old(kernel).scheduleLinks,
        final(kernel).taskLinks == old(kernel).taskLinks,
        final(kernel).sched == old(kernel).sched,
        final(kernel).noThreadRefCount == old(kernel).noThreadRefCount,
        final(kernel).activeColl == old(kernel).activeColl,
        final(kernel).freeColl == old(kernel).freeColl,
        resume == old(kernel).blocks[thread.0 as int].kernelStackOffset,
{
    kernel.current = Some(thread);
    proof {
        crate::thread::scheduler::lemma_schedule_kept(old(kernel), kernel);
    }
    kernel.blocks[thread.0].kernelStackOffset
}

/// A thread that runs alone yields to itself. The switch is decided, it
/// goes to the thread itself, and the cursor still names the thread. Once
/// the thread has given the guard of the switch back, its control block,
/// the ring and the cursor are as they were before the yield.
pub proof fn lemma_lone_thread_yields_to_itself(
    pre: &Kernel,
    me: ThreadHandle,
    post: &Kernel,
    target: Option<ThreadHandle>,
    back: &Kernel,
)
    requires
        pre.wf(),
        pre.current == Some(me),
        ring(pre) == seq![me.0],
        guards_held(pre) < u32::MAX,
        yielded(pre, None, post, target),
        with_guards(post, back, (guards_held(post) - 1) as u32),
    ensures
        target == Some(me),
        cursor(post) == Some(me),
        ring(post) == ring(pre),
        back.blocks@ == pre.blocks@,
        ring(back) == ring(pre),
        cursor(back) == cursor(pre),
        back.current == pre.current,
        guards_held(back) == guards_held(pre),
{
    assert(ring(pre)[0] == me.0);
    assert(ring(pre).contains(me.0));
    let named = cursor(pre)->0;
    assert(ring(pre).contains(named.0));
    assert(named.0 == me.0);
    assert(back.blocks@ =~= pre.blocks@);
}

} // verus!
