//! The collections of thread control blocks: the blocks of the threads that
//! exist, and the blocks that are free to be used for new threads.

#![allow(non_snake_case)]

use crate::registers::SuspendedState;
use crate::thread::scheduler::first_with_tid;
use crate::thread::{handed_out, Kernel, ThreadBlock, ThreadHandle};
use crate::variable_queue::{linked_at, same_slot, without};
use vstd::prelude::*;

verus! {

/// The threads that exist, in the order in which they were put in.
pub open spec fn active(kernel: &Kernel) -> Seq<usize> {
    kernel.activeColl.queue@
}

/// The blocks that belong to no thread, in the order in which they were put
/// in.
pub open spec fn spare(kernel: &Kernel) -> Seq<usize> {
    kernel.freeColl.queue@
}

/// The two collections are in order: both are well-formed queues over the
/// general-purpose link slots, and no block is in both.
pub open spec fn collections_wf(kernel: &Kernel) -> bool {
    &&& kernel.activeColl.queue.wf(kernel.links@)
    &&& kernel.freeColl.queue.wf(kernel.links@)
    &&& apart(active(kernel), spare(kernel))
}

/// No element occurs in both orders.
pub open spec fn apart(one: Seq<usize>, other: Seq<usize>) -> bool {
    forall|i: int, j: int| 0 <= i < one.len() && 0 <= j < other.len() ==> one[i] != other[j]
}

/// An element of one of two orders that are apart is no element of the
/// other.
pub proof fn lemma_apart(one: Seq<usize>, other: Seq<usize>, x: usize)
    requires
        apart(one, other),
    ensures
        !(one.contains(x) && other.contains(x)),
{
}

/// Two orders are apart where no element of the first is in the second.
pub proof fn lemma_is_apart(one: Seq<usize>, other: Seq<usize>)
    requires
        forall|x: usize| one.contains(x) ==> !other.contains(x),
    ensures
        apart(one, other),
{
    assert forall|i: int, j: int| 0 <= i < one.len() && 0 <= j < other.len() implies one[i]
        != other[j] by {
        assert(one.contains(one[i]));
        assert(other.contains(other[j]));
    }
}

/// The collections stay in order when a thread that is in no queue is added
/// to the kernel.
pub proof fn lemma_collections_grow(pre: &Kernel, post: &Kernel)
    requires
        collections_wf(pre),
        post.activeColl == pre.activeColl,
        post.freeColl == pre.freeColl,
        post.links@.len() == pre.links@.len() + 1,
        post.links@.take(pre.links@.len() as int) == pre.links@,
    ensures
        collections_wf(post),
{
    let n = pre.links@.len() as int;
    assert forall|j: int| 0 <= j < n implies #[trigger] same_slot(pre.links@, post.links@, j) by {
        assert(post.links@.take(n)[j] == post.links@[j]);
    }
    pre.activeColl.queue.lemma_wf_frame(pre.links@, post.links@);
    pre.freeColl.queue.lemma_wf_frame(pre.links@, post.links@);
}

/// The thread that exists and has the thread id `tid`: the first one in the
/// collection of the threads that exist.
pub open spec fn active_with_tid(kernel: &Kernel, tid: i32) -> Option<ThreadHandle> {
    first_with_tid(active(kernel), kernel.blocks@, tid, 0)
}

/// A handle to the thread that exists and has the thread id `tid`. The
/// handle is counted: whoever asked gives it up again with `release`.
pub fn getActiveThreadByTid(kernel: &mut Kernel, tid: i32) -> (thread: Option<ThreadHandle>)
    requires
        old(kernel).wf(),
    ensures
        final(kernel).wf(),
        thread == active_with_tid(old(kernel), tid),
        handed_out(old(kernel), thread, final(kernel)),
        thread matches Some(h) ==> old(kernel).knows(h) && old(kernel).blocks[h.0 as int].tid
            == tid && active(old(kernel)).contains(h.0),
{
    match findActiveThreadByTid(kernel, tid) {
        Some(found) => Some(kernel.handle(found.0)),
        None => None,
    }
}

/// The thread that exists and has the thread id `tid`, named without a
/// handle being counted for it.
pub(crate) fn findActiveThreadByTid(kernel: &Kernel, tid: i32) -> (thread: Option<ThreadHandle>)
    requires
        kernel.wf(),
    ensures
        thread == active_with_tid(kernel, tid),
        thread matches Some(h) ==> kernel.knows(h) && kernel.blocks[h.0 as int].tid == tid
            && active(kernel).contains(h.0),
{
    let order = kernel.activeColl.queue.iter(&kernel.links);
    let mut i: usize = 0;
    while i < order.len()
        invariant
            kernel.wf(),
            order@ == active(kernel),
            i <= order.len(),
            first_with_tid(order@, kernel.blocks@, tid, 0) == first_with_tid(
                order@,
                kernel.blocks@,
                tid,
                i as int,
            ),
        decreases order.len() - i,
    {
        let index = order[i];
        proof {
            assert(linked_at(order@, kernel.links@, i as int));
            assert(order@.contains(index));
        }
        if kernel.blocks[index].tid == tid {
            return Some(ThreadHandle(index));
        }
        i += 1;
    }
    None
}

/// Records where the user-mode state of the running thread is saved. Does
/// nothing while no thread runs.
pub fn setSuspendedState(kernel: &mut Kernel, state: SuspendedState)
    requires
        old(kernel).shaped(),
    ensures
        final(kernel).same_but_blocks(old(kernel)),
        match old(kernel).current {
            Some(h) => final(kernel).blocks@ == old(kernel).blocks@.update(
                h.0 as int,
                ThreadBlock { suspendedUserState: Some(state), ..old(kernel).blocks[h.0 as int] },
            ),
            None => final(kernel).blocks@ == old(kernel).blocks@,
        },
{
    match kernel.current {
        Some(thread) => {
            let mut block = kernel.blocks[thread.0];
            block.suspendedUserState = Some(state);
            kernel.blocks.set(thread.0, block);
        },
        None => {},
    }
}

/// Puts a thread into the collection of the threads that exist. A thread
/// that is in a collection already stays where it is.
pub fn activateThread(kernel: &mut Kernel, thread: ThreadHandle)
    requires
        old(kernel).wf(),
        old(kernel).knows(thread),
    ensures
        final(kernel).wf(),
        final(kernel).blocks == old(kernel).blocks,
        final(kernel).current == old(kernel).current,
        final(kernel).sched == old(kernel).sched,
        final(kernel).scheduleLinks == old(kernel).scheduleLinks,
        final(kernel).taskLinks == old(kernel).taskLinks,
        final(kernel).noThreadRefCount == old(kernel).noThreadRefCount,
        spare(final(kernel)) == spare(old(kernel)),
        active(final(kernel)) == if old(kernel).links[thread.0 as int].in_queue_spec() {
            active(old(kernel))
        } else {
            active(old(kernel)).push(thread.0)
        },
{
    proof {
        if spare(kernel).contains(thread.0) {
            kernel.freeColl.queue.lemma_members_marked(kernel.links@, thread.0);
        }
        if active(kernel).contains(thread.0) {
            kernel.activeColl.queue.lemma_members_marked(kernel.links@, thread.0);
        }
    }
    kernel.activeColl.insertThread(&mut kernel.links, thread);
    proof {
        let before = active(old(kernel));
        let fresh = !old(kernel).links[thread.0 as int].in_queue_spec();
        assert forall|x: usize| active(kernel).contains(x) implies !spare(kernel).contains(x) by {
            if fresh {
                assert(before.push(thread.0) == crate::variable_queue::with_at(
                    before,
                    before.len() as int,
                    thread.0,
                ));
                crate::variable_queue::lemma_with_at_contains(
                    before,
                    before.len() as int,
                    thread.0,
                    x,
                );
            }
            if x != thread.0 || !fresh {
                lemma_apart(before, spare(old(kernel)), x);
            }
        }
        lemma_is_apart(active(kernel), spare(kernel));
        assert forall|j: int|
            0 <= j < old(kernel).links@.len() && spare(kernel).contains(j as usize)
                implies #[trigger] same_slot(
            old(kernel).links@,
            kernel.links@,
            j,
        ) by {
            assert(!active(kernel).contains(j as usize));
        }
        kernel.freeColl.queue.lemma_wf_frame(old(kernel).links@, kernel.links@);
        crate::thread::scheduler::lemma_schedule_kept(old(kernel), kernel);
    }
}

/// Takes a thread out of the collection of the threads that exist, as the
/// end of a thread does. A thread that is not in that collection stays as
/// it is.
pub fn retireThread(kernel: &mut Kernel, thread: ThreadHandle)
    requires
        old(kernel).wf(),
        old(kernel).knows(thread),
    ensures
        final(kernel).wf(),
        final(kernel).blocks == old(kernel).blocks,
        final(kernel).current == old(kernel).current,
        final(kernel).sched == old(kernel).sched,
        final(kernel).scheduleLinks == old(kernel).scheduleLinks,
        final(kernel).taskLinks == old(kernel).taskLinks,
        final(kernel).noThreadRefCount == old(kernel).noThreadRefCount,
        spare(final(kernel)) == spare(old(kernel)),
        active(final(kernel)) == without(active(old(kernel)), thread.0),
{
    if !contains_thread(kernel, thread) {
        proof {
            if kernel.links[thread.0 as int].in_queue_spec() {
            }
        }
        return ;
    }
    kernel.activeColl.removeThread(&mut kernel.links, thread);
    proof {
        let before = active(old(kernel));
        lemma_apart(before, spare(old(kernel)), thread.0);
        assert forall|j: int|
            0 <= j < old(kernel).links@.len() && spare(kernel).contains(j as usize)
                implies #[trigger] same_slot(
            old(kernel).links@,
            kernel.links@,
            j,
        ) by {
            lemma_apart(before, spare(old(kernel)), j as usize);
        }
        kernel.freeColl.queue.lemma_wf_frame(old(kernel).links@, kernel.links@);
        assert forall|x: usize| active(kernel).contains(x) implies !spare(kernel).contains(x) by {
            crate::variable_queue::lemma_without_contains(before, thread.0, x);
            lemma_apart(before, spare(old(kernel)), x);
        }
        lemma_is_apart(active(kernel), spare(kernel));
        crate::thread::scheduler::lemma_schedule_kept(old(kernel), kernel);
    }
}

/// Whether the thread is in the collection of the threads that exist.
pub fn contains_thread(kernel: &Kernel, thread: ThreadHandle) -> (found: bool)
    requires
        kernel.wf(),
    ensures
        found == active(kernel).contains(thread.0),
{
    let order = kernel.activeColl.queue.iter(&kernel.links);
    let mut i: usize = 0;
    while i < order.len()
        invariant
            order@ == active(kernel),
            i <= order.len(),
            forall|k: int| 0 <= k < i ==> order@[k] != thread.0,
        decreases order.len() - i,
    {
        if order[i] == thread.0 {
            return true;
        }
        i += 1;
    }
    false
}

} // verus!
