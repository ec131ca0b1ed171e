//! Threads: their control blocks, the run queue and the switch between
//! them.
//!
//! All of it is state of one value, the `Kernel`, which stands for what the
//! kernel proper keeps in globals: the control blocks with their link
//! slots, the thread that runs, the schedule and the two collections of
//! blocks. No function here switches stacks. A function that decides on a
//! switch says to which thread, and `continueThread` records the switch
//! once it is made.
//!
//! A `ThreadHandle` is the index of a block and can be copied freely. The
//! handles that count are those that `Kernel::handle` and the lookups by
//! thread id hand out, and that `ThreadHandle::release` takes back: the
//! count of a block is the number of them that are out, and one more while
//! its thread is on the run queue.

#![allow(non_snake_case)]

pub mod context_switch;
pub mod manager;
pub mod scheduler;
pub mod thread;
pub mod thread_collection;
pub mod thread_internal;

use crate::thread::scheduler::Schedule;
use crate::thread::thread_collection::ThreadCollection;
use crate::variable_queue::{Head, Link};
use vstd::prelude::*;

pub use crate::thread::context_switch::{
    continueThread, getCurrentTask, getCurrentThread, yieldThread, yieldThreadTo,
    yieldThreadWithoutInterrupts,
};
pub use crate::thread::scheduler::{blockUntil, descheduleThread, scheduleThread};
pub use crate::thread::thread_internal::ThreadBlock;

verus! {

/// A queue of threads.
pub type ThreadQueue = Head;

/// The name of a thread: the index of its control block. Two handles are
/// equal when they name the same block.
#[derive(Clone, Copy, Debug, PartialEq, Eq, Structural)]
pub struct ThreadHandle(pub usize);

/// The threads of the kernel and what is scheduled of them.
pub struct Kernel {
    /// The control blocks; a thread is named by the index of its block.
    pub blocks: Vec<ThreadBlock>,
    /// The general-purpose link slot of every block, used by the
    /// collections.
    pub links: Vec<Link>,
    /// The link slot of every block for the run queue.
    pub scheduleLinks: Vec<Link>,
    /// The link slot of every block for the queue of its task.
    pub taskLinks: Vec<Link>,
    /// The thread that runs; `None` before the first switch.
    pub current: Option<ThreadHandle>,
    /// The run queue and its cursor.
    pub sched: Schedule,
    /// Number of interrupt guards held by the boot context.
    pub noThreadRefCount: u32,
    /// The blocks of the threads that exist.
    pub activeColl: ThreadCollection,
    /// The blocks that belong to no thread.
    pub freeColl: ThreadCollection,
}

/// The count of a block is in keeping with its mark. The run queue holds
/// one reference to a block that is scheduled, and a block that is not
/// scheduled has room for that reference.
pub open spec fn count_fits(block: ThreadBlock) -> bool {
    if block.scheduled {
        block.refCount >= 1
    } else {
        block.refCount < u32::MAX
    }
}

/// The number of handles to a block that are out: its count, less the
/// reference that the run queue holds while the block is scheduled.
pub open spec fn handles_to(block: ThreadBlock) -> int {
    block.refCount - if block.scheduled {
        1int
    } else {
        0int
    }
}

/// The block once one more handle to it is out. No more than
/// `u32::MAX - 1` handles are counted.
pub open spec fn one_more(block: ThreadBlock) -> ThreadBlock {
    if handles_to(block) < u32::MAX - 1 {
        ThreadBlock { refCount: (block.refCount + 1) as u32, ..block }
    } else {
        block
    }
}

/// The block once one of the handles to it has been given up. Where no
/// handle is out the block stays as it is.
pub open spec fn one_less(block: ThreadBlock) -> ThreadBlock {
    if handles_to(block) > 0 {
        ThreadBlock { refCount: (block.refCount - 1) as u32, ..block }
    } else {
        block
    }
}

/// What handing out a handle to `thread` does, where there is one to hand
/// out: one more handle to its block is out, and nothing else changes.
pub open spec fn handed_out(pre: &Kernel, thread: Option<ThreadHandle>, post: &Kernel) -> bool {
    match thread {
        Some(h) => post.same_but_blocks(pre) && post.blocks@ == pre.blocks@.update(
            h.0 as int,
            one_more(pre.blocks[h.0 as int]),
        ),
        None => *post == *pre,
    }
}

/// The kernel stays in order while the marks of its blocks stay and their
/// counts stay in keeping with them.
pub proof fn lemma_recounted(pre: &Kernel, post: &Kernel)
    requires
        pre.wf(),
        post.same_but_blocks(pre),
        post.blocks.len() == pre.blocks.len(),
        forall|i: int|
            0 <= i < pre.blocks.len() ==> (#[trigger] post.blocks@[i]).scheduled
                == pre.blocks@[i].scheduled,
        post.counted(),
    ensures
        post.wf(),
{
    assert forall|i: int| 0 <= i < post.blocks.len()
        implies #[trigger] crate::thread::scheduler::is_scheduled(
        post,
        i,
    ) == crate::thread::scheduler::ring(post).contains(i as usize) by {
        assert(crate::thread::scheduler::is_scheduled(pre, i) == crate::thread::scheduler::ring(
            pre,
        ).contains(i as usize));
    }
}

/// A handle that is handed out and given up again leaves the count of its
/// block as it was, as long as the count had room for it. While it is out,
/// one more handle to the block is out.
pub proof fn lemma_handle_then_release(
    pre: &Kernel,
    thread: ThreadHandle,
    held: &Kernel,
    post: &Kernel,
)
    requires
        pre.wf(),
        pre.knows(thread),
        pre.handles_out(thread.0 as int) < u32::MAX - 1,
        handed_out(pre, Some(thread), held),
        post.same_but_blocks(held),
        post.blocks@ == held.blocks@.update(
            thread.0 as int,
            one_less(held.blocks[thread.0 as int]),
        ),
    ensures
        held.handles_out(thread.0 as int) == pre.handles_out(thread.0 as int) + 1,
        post.blocks@ == pre.blocks@,
        post.same_but_blocks(pre),
{
    assert(count_fits(pre.blocks@[thread.0 as int]));
    assert(post.blocks@ =~= pre.blocks@);
}

impl ThreadHandle {
    /// The handle for the control block at `index`.
    pub fn from_raw_parts(index: usize) -> (handle: ThreadHandle)
        ensures
            handle.0 == index,
    {
        ThreadHandle(index)
    }

    /// The index of the control block that the handle names.
    pub fn to_raw_parts(self) -> (index: usize)
        ensures
            index == self.0,
    {
        self.0
    }

    /// The control block that the handle names.
    pub fn deref_pin<'a>(&self, kernel: &'a Kernel) -> (block: &'a ThreadBlock)
        requires
            kernel.knows(*self),
        ensures
            *block == kernel.blocks[self.0 as int],
    {
        &kernel.blocks[self.0]
    }

    /// Gives the handle up: one handle less to the block is out. Where no
    /// handle is out, nothing changes: the reference that the run queue
    /// holds to a scheduled thread is not a handle to give up.
    pub fn release(self, kernel: &mut Kernel)
        requires
            old(kernel).knows(self),
        ensures
            final(kernel).same_but_blocks(old(kernel)),
            final(kernel).blocks@ == old(kernel).blocks@.update(
                self.0 as int,
                one_less(old(kernel).blocks[self.0 as int]),
            ),
            old(kernel).wf() ==> final(kernel).wf(),
    {
        let mut block = kernel.blocks[self.0];
        let held: u32 = if block.scheduled {
            1
        } else {
            0
        };
        if block.refCount > held {
            block.refCount = block.refCount - 1;
        }
        kernel.blocks.set(self.0, block);
        proof {
            if old(kernel).wf() {
                lemma_recounted(old(kernel), kernel);
            }
        }
    }
}

impl Kernel {
    /// The handle names a block of this kernel.
    pub open spec fn knows(&self, thread: ThreadHandle) -> bool {
        thread.0 < self.blocks.len()
    }

    /// Every block has its three link slots, and the running thread is one
    /// of the blocks.
    pub open spec fn shaped(&self) -> bool {
        &&& self.links.len() == self.blocks.len()
        &&& self.scheduleLinks.len() == self.blocks.len()
        &&& self.taskLinks.len() == self.blocks.len()
        &&& self.current matches Some(h) ==> self.knows(h)
    }

    /// The number of handles to the block at `i` that are out.
    pub open spec fn handles_out(&self, i: int) -> int {
        handles_to(self.blocks[i])
    }

    /// The count of every block is in keeping with its mark: it is the
    /// number of handles that are out, and one more while the thread is
    /// scheduled.
    pub open spec fn counted(&self) -> bool {
        forall|i: int| 0 <= i < self.blocks.len() ==> count_fits(#[trigger] self.blocks@[i])
    }

    /// The kernel's state is in order: its shape, the schedule, the
    /// collections and the counts of the blocks.
    pub open spec fn wf(&self) -> bool {
        &&& self.shaped()
        &&& crate::thread::scheduler::schedule_wf(self)
        &&& crate::thread::manager::collections_wf(self)
        &&& self.counted()
    }

    /// Everything but the control blocks is as in `pre`.
    pub open spec fn same_but_blocks(&self, pre: &Kernel) -> bool {
        &&& self.links == pre.links
        &&& self.scheduleLinks == pre.scheduleLinks
        &&& self.taskLinks == pre.taskLinks
        &&& self.current == pre.current
        &&& self.sched == pre.sched
        &&& self.noThreadRefCount == pre.noThreadRefCount
        &&& self.activeColl == pre.activeColl
        &&& self.freeColl == pre.freeColl
    }

    /// Everything that the schedule does not touch is as in `pre`: the
    /// running thread, the collections and their link slots, and the count
    /// of the boot context.
    pub open spec fn same_but_schedule(&self, pre: &Kernel) -> bool {
        &&& self.links == pre.links
        &&& self.taskLinks == pre.taskLinks
        &&& self.current == pre.current
        &&& self.noThreadRefCount == pre.noThreadRefCount
        &&& self.activeColl == pre.activeColl
        &&& self.freeColl == pre.freeColl
        &&& self.blocks.len() == pre.blocks.len()
    }

    /// A kernel without threads.
    pub fn new() -> (kernel: Kernel)
        ensures
            kernel.wf(),
            kernel.blocks.len() == 0,
            kernel.current is None,
            kernel.noThreadRefCount == 0,
            crate::thread::scheduler::ring(&kernel).len() == 0,
            crate::thread::scheduler::cursor(&kernel) is None,
            crate::thread::manager::active(&kernel).len() == 0,
            crate::thread::manager::spare(&kernel).len() == 0,
    {
        let kernel = Kernel {
            blocks: Vec::new(),
            links: Vec::new(),
            scheduleLinks: Vec::new(),
            taskLinks: Vec::new(),
            current: None,
            sched: Schedule::new(),
            noThreadRefCount: 0,
            activeColl: ThreadCollection::new(),
            freeColl: ThreadCollection::new(),
        };
        assert(kernel.sched.lock.data.queue@.len() == 0);
        kernel
    }

    /// Takes a control block in. The block is in no queue and not
    /// scheduled, and no handle to it is counted yet; the handle that names
    /// it is returned.
    pub fn adopt(&mut self, block: ThreadBlock) -> (thread: ThreadHandle)
        requires
            old(self).wf(),
        ensures
            final(self).wf(),
            thread.0 == old(self).blocks.len(),
            final(self).blocks@
                == old(self).blocks@.push(ThreadBlock { scheduled: false, refCount: 0, ..block }),
            final(self).current == old(self).current,
            final(self).sched == old(self).sched,
            final(self).noThreadRefCount == old(self).noThreadRefCount,
            final(self).activeColl == old(self).activeColl,
            final(self).freeColl == old(self).freeColl,
            final(self).links.len() == final(self).blocks.len(),
            !final(self).links[thread.0 as int].in_queue_spec(),
            !final(self).scheduleLinks[thread.0 as int].in_queue_spec(),
            !final(self).taskLinks[thread.0 as int].in_queue_spec(),
    {
        let index = self.blocks.len();
        let mut taken = block;
        taken.scheduled = false;
        taken.refCount = 0;
        self.blocks.push(taken);
        self.links.push(Link::new());
        self.scheduleLinks.push(Link::new());
        self.taskLinks.push(Link::new());
        proof {
            let n = old(self).blocks@.len() as int;
            assert(self.blocks@.take(n) =~= old(self).blocks@);
            assert(self.links@.take(n) =~= old(self).links@);
            assert(self.scheduleLinks@.take(n) =~= old(self).scheduleLinks@);
            crate::thread::scheduler::lemma_schedule_grows(old(self), self);
            crate::thread::manager::lemma_collections_grow(old(self), self);
        }
        ThreadHandle(index)
    }

    /// A handle to the block at `index`: one more handle to the block is
    /// out. A count at its largest value stays there.
    pub fn handle(&mut self, index: usize) -> (thread: ThreadHandle)
        requires
            index < old(self).blocks.len(),
        ensures
            thread.0 == index,
            handed_out(old(self), Some(thread), final(self)),
            old(self).wf() ==> final(self).wf(),
    {
        let mut block = self.blocks[index];
        let room: u32 = if block.scheduled {
            u32::MAX
        } else {
            u32::MAX - 1
        };
        if block.refCount < room {
            block.refCount = block.refCount + 1;
        }
        self.blocks.set(index, block);
        proof {
            if old(self).wf() {
                lemma_recounted(old(self), self);
            }
        }
        ThreadHandle(index)
    }
}

} // verus!
