//! The scheduler.
//!
//! The run queue is a ring: a queue of the threads that may run, and a
//! cursor that names the thread to run next and wraps from the last thread
//! to the first. The timer interrupt walks the ring, so the ring is guarded
//! by disabling interrupts and by nothing else; every function here asks for
//! the interrupt guard as evidence. The lock around the ring is free
//! between calls: with interrupts off nobody can hold it.

#![allow(non_snake_case)]

use crate::sync::disable_interrupts::DisabledInterruptsGuard;
use crate::sync::owned_lock::{OwnedLock, OwnedLockGuard};
use crate::thread::context_switch::yieldThreadWithoutInterrupts;
use crate::thread::manager::findActiveThreadByTid;
use crate::thread::{count_fits, handed_out, Kernel, ThreadBlock, ThreadHandle};
use crate::variable_queue::{
    lemma_with_at_contains, lemma_without_contains, linked_at, with_at, without, Head, Link,
};
use vstd::prelude::*;

verus! {

/// The threads that may run, in the order of the ring.
pub type ScheduledThreads = Head;

/// The run queue and its cursor.
pub struct ScheduleInner {
    /// The thread to run next; `None` exactly while the ring is empty.
    pub next: Option<ThreadHandle>,
    /// The ring.
    pub queue: ScheduledThreads,
}

/// The schedule behind its lock.
pub struct Schedule {
    /// The lock around the ring and its cursor.
    pub lock: OwnedLock<ScheduleInner>,
}

/// What a thread that blocks is to do next.
#[derive(Clone, Copy, Debug, PartialEq, Eq, Structural)]
pub enum BlockStep {
    /// The condition holds: the thread goes on.
    Proceed,
    /// The thread is off the run queue and the given thread is to run; the
    /// thread asks again once it runs again.
    SwitchTo(ThreadHandle),
    /// The thread is off the run queue and no thread may run: the processor
    /// idles until one is scheduled.
    Idle,
}

/// The threads of the ring in `kernel`, front first.
pub open spec fn ring(kernel: &Kernel) -> Seq<usize> {
    kernel.sched.lock.data.queue@
}

/// The cursor of the ring in `kernel`.
pub open spec fn cursor(kernel: &Kernel) -> Option<ThreadHandle> {
    kernel.sched.lock.data.next
}

/// The thread behind `thread` in the ring `order`, which is its first
/// thread where `thread` is the last.
pub open spec fn ring_next(order: Seq<usize>, thread: usize) -> Option<ThreadHandle> {
    let at = order.index_of(thread);
    if at + 1 < order.len() {
        Some(ThreadHandle(order[at + 1]))
    } else {
        Some(ThreadHandle(order[0]))
    }
}

/// The thread is marked as scheduled.
pub open spec fn is_scheduled(kernel: &Kernel, i: int) -> bool {
    kernel.blocks[i].scheduled
}

/// The schedule is in order. Its lock is free. The ring is a well-formed
/// queue over the scheduling link slots and the only user of them. A thread
/// is in the ring exactly when it is marked as scheduled. The cursor names a
/// thread of the ring, and names none exactly when the ring is empty.
pub open spec fn schedule_wf(kernel: &Kernel) -> bool {
    &&& kernel.sched.lock.wf()
    &&& !kernel.sched.lock.status
    &&& kernel.sched.lock.data.queue.wf(kernel.scheduleLinks@)
    &&& kernel.sched.lock.data.queue.exclusive(kernel.scheduleLinks@)
    &&& forall|i: int|
        0 <= i < kernel.blocks.len() ==> #[trigger] is_scheduled(kernel, i)
            == ring(kernel).contains(i as usize)
    &&& cursor(kernel) matches Some(h) ==> ring(kernel).contains(h.0)
    &&& (cursor(kernel) is None) == (ring(kernel).len() == 0)
}

/// The schedule stays in order when a thread that is in no queue is added
/// to the kernel.
pub proof fn lemma_schedule_grows(pre: &Kernel, post: &Kernel)
    requires
        pre.shaped(),
        schedule_wf(pre),
        post.sched == pre.sched,
        post.blocks@.len() == pre.blocks@.len() + 1,
        post.blocks@.take(pre.blocks@.len() as int) == pre.blocks@,
        !post.blocks@.last().scheduled,
        post.scheduleLinks@.len() == pre.scheduleLinks@.len() + 1,
        post.scheduleLinks@.take(pre.scheduleLinks@.len() as int) == pre.scheduleLinks@,
        !post.scheduleLinks@.last().in_queue_spec(),
    ensures
        schedule_wf(post),
{
    let queue = pre.sched.lock.data.queue;
    let n = pre.blocks@.len() as int;
    assert forall|j: int| 0 <= j < n implies post.scheduleLinks@[j] == pre.scheduleLinks@[j] by {
        assert(post.scheduleLinks@.take(n)[j] == post.scheduleLinks@[j]);
    }
    queue.lemma_wf_frame(pre.scheduleLinks@, post.scheduleLinks@);
    assert forall|i: int| 0 <= i < post.blocks.len() implies #[trigger] is_scheduled(post, i)
        == ring(post).contains(i as usize) by {
        if i < n {
            assert(post.blocks@.take(n)[i] == post.blocks@[i]);
            assert(is_scheduled(pre, i) == ring(pre).contains(i as usize));
        } else {
            if ring(pre).contains(i as usize) {
                queue.lemma_members_marked(pre.scheduleLinks@, i as usize);
            }
        }
    }
}

/// The marks agree with the ring as long as the blocks and the ring stay
/// as they are.
pub proof fn lemma_marks_kept(pre: &Kernel, post: &Kernel)
    requires
        schedule_wf(pre),
        ring(post) == ring(pre),
        post.blocks == pre.blocks,
    ensures
        forall|i: int|
            0 <= i < post.blocks.len() ==> #[trigger] is_scheduled(post, i) == ring(post).contains(
                i as usize,
            ),
{
    assert forall|i: int| 0 <= i < post.blocks.len() implies #[trigger] is_scheduled(post, i)
        == ring(post).contains(i as usize) by {
        assert(is_scheduled(pre, i) == ring(pre).contains(i as usize));
    }
}

/// The schedule stays in order while the blocks, the scheduling link slots
/// and the schedule itself stay as they are.
pub proof fn lemma_schedule_kept(pre: &Kernel, post: &Kernel)
    requires
        schedule_wf(pre),
        post.sched == pre.sched,
        post.blocks == pre.blocks,
        post.scheduleLinks == pre.scheduleLinks,
    ensures
        schedule_wf(post),
{
    assert forall|i: int| 0 <= i < post.blocks.len() implies #[trigger] is_scheduled(post, i)
        == ring(post).contains(i as usize) by {
        assert(is_scheduled(pre, i) == ring(pre).contains(i as usize));
    }
}

impl Schedule {
    /// An empty schedule.
    pub fn new() -> (schedule: Schedule)
        ensures
            schedule.lock.wf(),
            !schedule.lock.status,
            schedule.lock.data.next is None,
            schedule.lock.data.queue@ == Seq::<usize>::empty(),
            forall|links: Seq<Link>| schedule.lock.data.queue.wf(links),
    {
        Schedule { lock: OwnedLock::new(ScheduleInner { next: None, queue: Head::new() }) }
    }
}

/// Takes the lock of the schedule. With interrupts off the lock is free, so
/// there is nothing to wait for.
pub fn getSchedule(kernel: &mut Kernel, disabledInterrupts: &DisabledInterruptsGuard) -> (guard:
    OwnedLockGuard)
    requires
        old(kernel).wf(),
    ensures
        final(kernel).sched.lock.held(),
        final(kernel).sched.lock.data == old(kernel).sched.lock.data,
        final(kernel).sched.lock.owner == old(kernel).current,
        final(kernel).blocks == old(kernel).blocks,
        final(kernel).scheduleLinks == old(kernel).scheduleLinks,
        final(kernel).same_but_schedule(old(kernel)),
{
    let current = kernel.current;
    match kernel.sched.lock.tryLock(current) {
        Ok(guard) => guard,
        Err(_) => vstd::pervasive::unreached(),
    }
}

/// The schedule of `post` is that of `pre` but for its cursor.
pub open spec fn cursor_moved(pre: &Kernel, post: &Kernel) -> bool {
    &&& post.sched.lock.data.queue == pre.sched.lock.data.queue
    &&& post.sched.lock.status == pre.sched.lock.status
    &&& post.sched.lock.owner == pre.sched.lock.owner
    &&& post.sched.lock.guardCreated == pre.sched.lock.guardCreated
}

/// Moves the cursor on and returns the thread it named: the thread to run
/// next. The cursor then names the thread behind it in the ring. `None`,
/// with nothing changed, while the ring is empty. Nothing is switched.
pub fn getNextThread(kernel: &mut Kernel, disabledInterrupts: &DisabledInterruptsGuard) -> (next:
    Option<ThreadHandle>)
    requires
        old(kernel).wf(),
    ensures
        final(kernel).wf(),
        final(kernel).same_but_schedule(old(kernel)),
        final(kernel).blocks == old(kernel).blocks,
        final(kernel).scheduleLinks == old(kernel).scheduleLinks,
        ring(final(kernel)) == ring(old(kernel)),
        cursor_moved(old(kernel), final(kernel)),
        next == cursor(old(kernel)),
        cursor(final(kernel)) == match cursor(old(kernel)) {
            Some(curr) => ring_next(ring(old(kernel)), curr.0),
            None => None,
        },
{
    let guard = getSchedule(kernel, disabledInterrupts);
    let front = match kernel.sched.lock.data.queue.front_ptr() {
        Some(first) => Some(ThreadHandle(first)),
        None => None,
    };
    let curr = match kernel.sched.lock.data.next {
        Some(curr) => curr,
        None => {
            kernel.sched.lock.data.next = front;
            guard.release(&mut kernel.sched.lock);
            proof {
                assert(ring(kernel) == ring(old(kernel)));
                lemma_marks_kept(old(kernel), kernel);
            }
            return None;
        },
    };
    proof {
        let order = ring(old(kernel));
        let at = order.index_of(curr.0);
        assert(linked_at(order, kernel.scheduleLinks@, at));
    }
    let following = match kernel.scheduleLinks[curr.0].next_ptr() {
        Some(following) => Some(ThreadHandle(following)),
        None => front,
    };
    kernel.sched.lock.data.next = following;
    guard.release(&mut kernel.sched.lock);
    proof {
        assert(ring(kernel) == ring(old(kernel)));
        let order = ring(old(kernel));
        let at = order.index_of(curr.0);
        if at + 1 < order.len() {
            assert(order.contains(order[at + 1]));
        } else {
            assert(order.contains(order[0]));
        }
        assert(following == ring_next(order, curr.0));
        lemma_marks_kept(old(kernel), kernel);
    }
    Some(curr)
}

/// A block once its thread is on the run queue: it is marked, and the run
/// queue holds one reference to it.
pub open spec fn on_queue(block: ThreadBlock) -> ThreadBlock {
    ThreadBlock { scheduled: true, refCount: (block.refCount + 1) as u32, ..block }
}

/// A block once its thread is off the run queue: its mark is cleared, and
/// the reference that the run queue held is given up. A block that is not
/// marked stays as it is.
pub open spec fn off_queue(block: ThreadBlock) -> ThreadBlock {
    if block.scheduled {
        ThreadBlock { scheduled: false, refCount: (block.refCount - 1) as u32, ..block }
    } else {
        block
    }
}

/// What scheduling a thread that is not scheduled does: the thread is
/// marked and counted for the run queue, and it is in the ring, as the only
/// thread of an empty ring and right behind the thread that the cursor
/// names otherwise. The cursor stays, and names the thread where the ring
/// was empty.
pub open spec fn thread_scheduled(pre: &Kernel, thread: ThreadHandle, post: &Kernel) -> bool {
    &&& post.same_but_schedule(pre)
    &&& post.blocks@ == pre.blocks@.update(thread.0 as int, on_queue(pre.blocks[thread.0 as int]))
    &&& ring(post) == match cursor(pre) {
        Some(curr) => with_at(ring(pre), ring(pre).index_of(curr.0) + 1, thread.0),
        None => ring(pre).push(thread.0),
    }
    &&& cursor(post) == match cursor(pre) {
        Some(curr) => Some(curr),
        None => Some(thread),
    }
}

/// What waking a thread does: a thread that the kernel knows and that is
/// not scheduled is scheduled; for any other thread nothing changes.
pub open spec fn woken(pre: &Kernel, thread: ThreadHandle, post: &Kernel) -> bool {
    if pre.knows(thread) && !pre.blocks[thread.0 as int].scheduled {
        thread_scheduled(pre, thread, post)
    } else {
        *post == *pre
    }
}

/// What waking the threads of `threads` one after the other does.
pub open spec fn woken_all(pre: &Kernel, threads: Seq<usize>, post: &Kernel) -> bool
    decreases threads.len(),
{
    if threads.len() == 0 {
        *post == *pre
    } else {
        exists|mid: Kernel|
            woken_all(pre, threads.drop_last(), &mid) && mid.wf() && #[trigger] woken(
                &mid,
                ThreadHandle(threads.last()),
                post,
            )
    }
}

/// Waking one more thread extends what `woken_all` says by that thread.
pub proof fn lemma_woken_one_more(pre: &Kernel, threads: Seq<usize>, mid: &Kernel, post: &Kernel)
    requires
        threads.len() > 0,
        woken_all(pre, threads.drop_last(), mid),
        mid.wf(),
        woken(mid, ThreadHandle(threads.last()), post),
    ensures
        woken_all(pre, threads, post),
{
    let witness = *mid;
    assert(woken_all(pre, threads.drop_last(), &witness) && witness.wf() && woken(
        &witness,
        ThreadHandle(threads.last()),
        post,
    ));
}

/// Waking a thread adds no block and clears no mark, and the thread is
/// scheduled afterwards where the kernel knows it.
pub proof fn lemma_woken_marks(pre: &Kernel, thread: ThreadHandle, post: &Kernel)
    requires
        woken(pre, thread, post),
    ensures
        post.blocks.len() == pre.blocks.len(),
        pre.knows(thread) ==> post.blocks[thread.0 as int].scheduled,
        forall|i: int|
            0 <= i < pre.blocks.len() && pre.blocks[i].scheduled ==> post.blocks[i].scheduled,
{
}

/// After every thread of `threads` has been woken, every one of them that
/// the kernel knows is scheduled, and so is every thread that was scheduled
/// before.
pub proof fn lemma_woken_all_marks(pre: &Kernel, threads: Seq<usize>, post: &Kernel)
    requires
        woken_all(pre, threads, post),
    ensures
        post.blocks.len() == pre.blocks.len(),
        forall|k: int|
            0 <= k < threads.len() && pre.knows(ThreadHandle(threads[k]))
                ==> post.blocks[threads[k] as int].scheduled,
        forall|i: int|
            0 <= i < pre.blocks.len() && pre.blocks[i].scheduled ==> post.blocks[i].scheduled,
    decreases threads.len(),
{
    if threads.len() > 0 {
        let mid = choose|mid: Kernel|
            woken_all(pre, threads.drop_last(), &mid) && mid.wf() && #[trigger] woken(
                &mid,
                ThreadHandle(threads.last()),
                post,
            );
        lemma_woken_all_marks(pre, threads.drop_last(), &mid);
        lemma_woken_marks(&mid, ThreadHandle(threads.last()), post);
        assert forall|k: int|
            0 <= k < threads.len() && pre.knows(
                ThreadHandle(threads[k]),
            ) implies post.blocks[threads[k] as int].scheduled by {
            if k < threads.len() - 1 {
                assert(threads.drop_last()[k] == threads[k]);
            }
        }
    }
}

/// Wakes a thread: schedules it where the kernel knows it and it is not
/// scheduled.
pub fn wakeThread(
    kernel: &mut Kernel,
    disabledInterrupts: &DisabledInterruptsGuard,
    thread: ThreadHandle,
)
    requires
        old(kernel).wf(),
    ensures
        final(kernel).wf(),
        woken(old(kernel), thread, final(kernel)),
        old(kernel).knows(thread) ==> final(kernel).blocks[thread.0 as int].scheduled,
        final(kernel).blocks.len() == old(kernel).blocks.len(),
        final(kernel).current == old(kernel).current,
{
    if thread.0 < kernel.blocks.len() {
        let _ = scheduleThread(kernel, disabledInterrupts, thread);
    }
}

/// Puts a thread on the run queue. Into an empty ring the thread goes as
/// the only one, and the cursor names it. Otherwise it goes right behind the
/// thread that the cursor names. Fails, with nothing changed, for a thread
/// that is scheduled already.
pub fn scheduleThread(
    kernel: &mut Kernel,
    disabledInterrupts: &DisabledInterruptsGuard,
    thread: ThreadHandle,
) -> (outcome: Result<(), ()>)
    requires
        old(kernel).wf(),
        old(kernel).knows(thread),
    ensures
        final(kernel).wf(),
        final(kernel).same_but_schedule(old(kernel)),
        outcome is Ok <==> !old(kernel).blocks[thread.0 as int].scheduled,
        outcome is Err ==> *final(kernel) == *old(kernel),
        outcome is Ok ==> thread_scheduled(old(kernel), thread, final(kernel)),
{
    if kernel.blocks[thread.0].scheduled {
        return Err(());
    }
    let guard = getSchedule(kernel, disabledInterrupts);
    let ghost order = ring(old(kernel));
    proof {
        assert(is_scheduled(old(kernel), thread.0 as int) == order.contains(thread.0));
        assert(!kernel.scheduleLinks@[thread.0 as int].in_queue_spec());
        match cursor(old(kernel)) {
            Some(next) => {
                kernel.sched.lock.data.queue.lemma_members_marked(kernel.scheduleLinks@, next.0);
            },
            None => {},
        }
    }
    let mut block = kernel.blocks[thread.0];
    assert(count_fits(kernel.blocks@[thread.0 as int]));
    block.scheduled = true;
    block.refCount = block.refCount + 1;
    kernel.blocks.set(thread.0, block);
    let ghost at: int;
    match kernel.sched.lock.data.next {
        None => {
            kernel.sched.lock.data.queue.insert_tail(&mut kernel.scheduleLinks, thread.0);
            kernel.sched.lock.data.next = Some(thread);
            proof {
                at = order.len() as int;
                assert(order.push(thread.0) == with_at(order, order.len() as int, thread.0));
            }
        },
        Some(next) => {
            kernel.sched.lock.data.queue.insert_after(&mut kernel.scheduleLinks, next.0, thread.0);
            proof {
                at = order.index_of(next.0) + 1;
            }
        },
    }
    guard.release(&mut kernel.sched.lock);
    proof {
        lemma_scheduled(old(kernel), kernel, thread, at);
    }
    Ok(())
}

/// What putting a thread into the ring keeps: the ring stays the only user
/// of its link slots, and the marks agree with the ring.
proof fn lemma_scheduled(pre: &Kernel, post: &Kernel, thread: ThreadHandle, at: int)
    requires
        pre.shaped(),
        schedule_wf(pre),
        pre.knows(thread),
        !pre.blocks[thread.0 as int].scheduled,
        0 <= at <= ring(pre).len(),
        ring(post) == with_at(ring(pre), at, thread.0),
        post.sched.lock.data.queue.wf(post.scheduleLinks@),
        post.scheduleLinks@.len() == pre.scheduleLinks@.len(),
        post.blocks@ == pre.blocks@.update(thread.0 as int, on_queue(pre.blocks[thread.0 as int])),
        forall|j: int|
            0 <= j < pre.scheduleLinks@.len() && !ring(post).contains(j as usize)
                ==> #[trigger] crate::variable_queue::same_slot(
                pre.scheduleLinks@,
                post.scheduleLinks@,
                j,
            ),
    ensures
        post.sched.lock.data.queue.exclusive(post.scheduleLinks@),
        forall|i: int|
            0 <= i < post.blocks.len() ==> #[trigger] is_scheduled(post, i) == ring(post).contains(
                i as usize,
            ),
        ring(post).len() > 0,
        ring(post).contains(thread.0),
        forall|x: usize| ring(pre).contains(x) ==> ring(post).contains(x),
{
    assert forall|j: int|
        0 <= j < post.scheduleLinks@.len()
            && (#[trigger] post.scheduleLinks@[j]).in_queue_spec() implies ring(
        post,
    ).contains(j as usize) by {
        if !ring(post).contains(j as usize) {
            assert(crate::variable_queue::same_slot(pre.scheduleLinks@, post.scheduleLinks@, j));
            assert(pre.scheduleLinks@[j].in_queue_spec());
            assert(ring(pre).contains(j as usize));
            lemma_with_at_contains(ring(pre), at, thread.0, j as usize);
        }
    }
    assert forall|i: int| 0 <= i < post.blocks.len() implies #[trigger] is_scheduled(post, i)
        == ring(post).contains(i as usize) by {
        lemma_with_at_contains(ring(pre), at, thread.0, i as usize);
        assert(is_scheduled(pre, i) == ring(pre).contains(i as usize));
    }
    lemma_with_at_contains(ring(pre), at, thread.0, thread.0);
    assert forall|x: usize| ring(pre).contains(x) implies ring(post).contains(x) by {
        lemma_with_at_contains(ring(pre), at, thread.0, x);
    }
}

/// The cursor once `thread` has left the ring: where it named the thread,
/// it names the thread that was behind it, or none where the thread was
/// alone; otherwise it stays.
pub open spec fn cursor_without(kernel: &Kernel, thread: ThreadHandle) -> Option<ThreadHandle> {
    if cursor(kernel) == Some(thread) {
        if ring(kernel).len() == 1 {
            None
        } else {
            ring_next(ring(kernel), thread.0)
        }
    } else {
        cursor(kernel)
    }
}

/// What taking a scheduled thread off the run queue does: its mark is
/// cleared and the reference of the run queue is given up, it is out of the
/// ring, and the cursor moves on where it named the thread.
pub open spec fn thread_descheduled(pre: &Kernel, thread: ThreadHandle, post: &Kernel) -> bool {
    &&& post.same_but_schedule(pre)
    &&& post.blocks@ == pre.blocks@.update(thread.0 as int, off_queue(pre.blocks[thread.0 as int]))
    &&& ring(post) == without(ring(pre), thread.0)
    &&& cursor(post) == cursor_without(pre, thread)
}

/// Takes a thread off the run queue. Where the cursor named the thread, it
/// moves on to the thread that was behind it, and names none where the
/// thread was the only one. Fails, with nothing changed, for a thread that
/// is not scheduled.
pub fn descheduleThread(
    kernel: &mut Kernel,
    disabledInterrupts: &DisabledInterruptsGuard,
    thread: ThreadHandle,
) -> (outcome: Result<(), ()>)
    requires
        old(kernel).wf(),
        old(kernel).knows(thread),
    ensures
        final(kernel).wf(),
        final(kernel).same_but_schedule(old(kernel)),
        outcome is Ok <==> old(kernel).blocks[thread.0 as int].scheduled,
        outcome is Err ==> *final(kernel) == *old(kernel),
        outcome is Ok ==> thread_descheduled(old(kernel), thread, final(kernel)),
{
    if !kernel.blocks[thread.0].scheduled {
        return Err(());
    }
    let guard = getSchedule(kernel, disabledInterrupts);
    let ghost order = ring(old(kernel));
    let ghost at = order.index_of(thread.0);
    proof {
        assert(is_scheduled(old(kernel), thread.0 as int) == order.contains(thread.0));
        assert(linked_at(order, kernel.scheduleLinks@, at));
    }
    let mut block = kernel.blocks[thread.0];
    assert(count_fits(kernel.blocks@[thread.0 as int]));
    block.scheduled = false;
    block.refCount = block.refCount - 1;
    kernel.blocks.set(thread.0, block);
    kernel.sched.lock.data.queue.remove(&mut kernel.scheduleLinks, thread.0);
    let names_thread = match kernel.sched.lock.data.next {
        Some(next) => next.0 == thread.0,
        None => false,
    };
    if names_thread {
        let front = match kernel.sched.lock.data.queue.front_ptr() {
            Some(first) => Some(ThreadHandle(first)),
            None => None,
        };
        kernel.sched.lock.data.next = match kernel.scheduleLinks[thread.0].next_ptr() {
            Some(following) => Some(ThreadHandle(following)),
            None => front,
        };
    }
    guard.release(&mut kernel.sched.lock);
    proof {
        let rest = ring(kernel);
        crate::variable_queue::lemma_without_at(order, at);
        assert forall|j: int|
            0 <= j < kernel.scheduleLinks@.len()
                && (#[trigger] kernel.scheduleLinks@[j]).in_queue_spec() implies rest.contains(
            j as usize,
        ) by {
            lemma_without_contains(order, thread.0, j as usize);
            if j != thread.0 && !order.contains(j as usize) {
                assert(crate::variable_queue::same_slot(
                    old(kernel).scheduleLinks@,
                    kernel.scheduleLinks@,
                    j,
                ));
                assert(old(kernel).scheduleLinks@[j].in_queue_spec());
            }
            if order.contains(j as usize) && j != thread.0 {
            }
        }
        assert forall|i: int| 0 <= i < kernel.blocks.len()
            implies #[trigger] is_scheduled(kernel, i)
            == rest.contains(i as usize) by {
            lemma_without_contains(order, thread.0, i as usize);
            assert(is_scheduled(old(kernel), i) == order.contains(i as usize));
        }
        lemma_without_contains(order, thread.0, thread.0);
        if names_thread {
            if at + 1 < order.len() {
                assert(rest[at] == order[at + 1]);
                assert(rest.contains(order[at + 1]));
            } else if order.len() > 1 {
                assert(rest[0] == order[0]);
                assert(rest.contains(order[0]));
            }
        } else {
            match cursor(old(kernel)) {
                Some(other) => {
                    lemma_without_contains(order, thread.0, other.0);
                },
                None => {},
            }
        }
    }
    Ok(())
}

/// The first thread of `order`, from position `from` on, whose block has the
/// thread id `tid`.
pub open spec fn first_with_tid(order: Seq<usize>, blocks: Seq<ThreadBlock>, tid: i32,
    from: int) -> Option<
    ThreadHandle,
>
    decreases order.len() - from,
{
    if from < 0 || from >= order.len() {
        None
    } else if blocks[order[from] as int].tid == tid {
        Some(ThreadHandle(order[from]))
    } else {
        first_with_tid(order, blocks, tid, from + 1)
    }
}

/// A handle to the scheduled thread with the thread id `tid`: the first
/// one in the order of the ring. The handle is counted: whoever asked gives
/// it up again with `release`.
pub fn getScheduledThreadByTid(
    kernel: &mut Kernel,
    disabledInterrupts: &DisabledInterruptsGuard,
    tid: i32,
) -> (thread: Option<ThreadHandle>)
    requires
        old(kernel).wf(),
    ensures
        final(kernel).wf(),
        thread == first_with_tid(ring(old(kernel)), old(kernel).blocks@, tid, 0),
        handed_out(old(kernel), thread, final(kernel)),
        thread matches Some(h) ==> final(kernel).knows(h)
            && final(kernel).blocks[h.0 as int].scheduled
            && final(kernel).blocks[h.0 as int].tid == tid,
{
    let order = kernel.sched.lock.data.queue.iter(&kernel.scheduleLinks);
    let mut i: usize = 0;
    while i < order.len()
        invariant
            kernel.wf(),
            *kernel == *old(kernel),
            order@ == ring(kernel),
            i <= order.len(),
            first_with_tid(order@, kernel.blocks@, tid, 0) == first_with_tid(
                order@,
                kernel.blocks@,
                tid,
                i as int,
            ),
        decreases order.len() - i,
    {
        let index = order[i];
        proof {
            assert(linked_at(order@, kernel.scheduleLinks@, i as int));
            assert(order@.contains(index));
            assert(is_scheduled(kernel, index as int) == ring(kernel).contains(index));
        }
        if kernel.blocks[index].tid == tid {
            return Some(kernel.handle(index));
        }
        i += 1;
    }
    None
}

/// What a running thread that has to wait does to the kernel. Its mark is
/// cleared, the reference of the run queue to it is given up, and it is out
/// of the ring. The thread that the cursor names, once
/// the caller has left the ring, is chosen to run, and the cursor moves on
/// to the thread behind it; with the ring empty the processor idles.
/// Nothing else changes.
pub open spec fn blocked(pre: &Kernel, post: &Kernel, step: BlockStep) -> bool {
    let me = pre.current->0;
    let rest = without(ring(pre), me.0);
    let chosen = cursor_without(pre, me);
    &&& post.same_but_schedule(pre)
    &&& post.blocks@ == pre.blocks@.update(me.0 as int, off_queue(pre.blocks[me.0 as int]))
    &&& ring(post) == rest
    &&& step == match chosen {
        Some(target) => BlockStep::SwitchTo(target),
        None => BlockStep::Idle,
    }
    &&& cursor(post) == match chosen {
        Some(target) => ring_next(rest, target.0),
        None => None,
    }
}

/// A thread that has blocked is off the run queue, and the thread that is
/// chosen to run in its place is another thread, which is on the run queue.
/// No thread is chosen exactly when the ring is left empty.
pub proof fn lemma_blocked_off_ring(pre: &Kernel, post: &Kernel, step: BlockStep)
    requires
        pre.wf(),
        pre.current is Some,
        blocked(pre, post, step),
    ensures
        !post.blocks[pre.current->0 .0 as int].scheduled,
        !ring(post).contains(pre.current->0 .0),
        step != BlockStep::Proceed,
        step == BlockStep::Idle <==> ring(post).len() == 0,
        step matches BlockStep::SwitchTo(target) ==> target != pre.current->0 && ring(
            post,
        ).contains(target.0),
{
    let me = pre.current->0;
    let order = ring(pre);
    lemma_without_contains(order, me.0, me.0);
    assert(is_scheduled(pre, me.0 as int) == order.contains(me.0));
    if order.contains(me.0) {
        let at = order.index_of(me.0);
        crate::variable_queue::lemma_without_at(order, at);
        if cursor(pre) == Some(me) {
            if order.len() > 1 {
                if at + 1 < order.len() {
                    assert(ring(post)[at] == order[at + 1]);
                } else {
                    assert(ring(post)[0] == order[0]);
                }
            }
        } else {
            match cursor(pre) {
                Some(other) => {
                    lemma_without_contains(order, me.0, other.0);
                },
                None => {},
            }
        }
    } else {
        match cursor(pre) {
            Some(other) => {
                lemma_without_contains(order, me.0, other.0);
            },
            None => {},
        }
    }
}

/// Scheduling and descheduling count for the run queue only. The count of
/// a block is the number of handles to it that are out, and one more while
/// its thread is on the run queue; putting a thread on the run queue, taking
/// it off and blocking leave the number of handles that are out as it was,
/// for every block.
pub proof fn lemma_run_queue_keeps_handles(pre: &Kernel, thread: ThreadHandle, post: &Kernel,
    i: int)
    requires
        pre.wf(),
        pre.knows(thread),
        0 <= i < pre.blocks.len(),
        ({
            ||| !pre.blocks[thread.0 as int].scheduled && thread_scheduled(pre, thread, post)
            ||| pre.blocks[thread.0 as int].scheduled && thread_descheduled(pre, thread, post)
            ||| exists|step: BlockStep| pre.current == Some(thread) && blocked(pre, post, step)
        }),
    ensures
        post.handles_out(i) == pre.handles_out(i),
        0 <= pre.handles_out(i) < u32::MAX,
        pre.blocks[i].refCount == pre.handles_out(i) + if pre.blocks[i].scheduled {
            1int
        } else {
            0int
        },
{
    assert(count_fits(pre.blocks@[i]));
    assert(count_fits(pre.blocks@[thread.0 as int]));
}

/// One round of blocking until a condition holds. Where `cond` holds, or no
/// thread runs, the caller goes on. Otherwise the running thread is taken
/// off the run queue and the next thread of the ring is chosen to run; the
/// caller switches to it and asks again, with the condition read anew, once
/// it runs again.
pub fn blockUntil(kernel: &mut Kernel, disabledInterrupts: &DisabledInterruptsGuard,
    cond: bool) -> (step:
    BlockStep)
    requires
        old(kernel).wf(),
    ensures
        final(kernel).wf(),
        final(kernel).same_but_schedule(old(kernel)),
        cond || old(kernel).current is None ==> step == BlockStep::Proceed && *final(kernel)
            == *old(kernel),
        !cond && old(kernel).current is Some ==> blocked(old(kernel), final(kernel), step),
{
    let thread = match kernel.current {
        Some(thread) => thread,
        None => {
            return BlockStep::Proceed;
        },
    };
    if cond {
        return BlockStep::Proceed;
    }
    let ghost order = ring(kernel);
    proof {
        assert(is_scheduled(kernel, thread.0 as int) == order.contains(thread.0));
    }
    let _ = descheduleThread(kernel, disabledInterrupts, thread);
    proof {
        lemma_without_contains(order, thread.0, thread.0);
        if !old(kernel).blocks[thread.0 as int].scheduled {
            assert(old(kernel).blocks@.update(thread.0 as int, old(kernel).blocks[thread.0 as int])
                =~= old(kernel).blocks@);
        }
    }
    match yieldThreadWithoutInterrupts(kernel, disabledInterrupts, None) {
        Ok(target) => BlockStep::SwitchTo(target),
        Err(_) => BlockStep::Idle,
    }
}

/// The thread id `tid` names a thread that exists and is not scheduled.
pub open spec fn can_make_runnable(kernel: &Kernel, tid: i32) -> bool {
    &&& tid >= 0
    &&& crate::thread::manager::active_with_tid(kernel, tid) is Some
    &&& !kernel.blocks[crate::thread::manager::active_with_tid(kernel, tid)->0 .0 as int].scheduled
}

/// Schedules the thread with the thread id `tid` at the user's request.
/// Returns 0 where the thread is put on the run queue, and -1 for a
/// negative id, for an id that no thread has, and for a thread that is
/// scheduled already.
pub fn make_runnable(kernel: &mut Kernel, disabledInterrupts: &DisabledInterruptsGuard,
    tid: i32) -> (status:
    i32)
    requires
        old(kernel).wf(),
    ensures
        final(kernel).wf(),
        status == 0 || status == -1,
        status == 0 <==> can_make_runnable(old(kernel), tid),
        status == -1 ==> *final(kernel) == *old(kernel),
        status == 0 ==> {
            let h = crate::thread::manager::active_with_tid(old(kernel), tid)->0;
            &&& thread_scheduled(old(kernel), h, final(kernel))
            &&& final(kernel).blocks[h.0 as int].scheduled
            &&& ring(final(kernel)).contains(h.0)
        },
{
    if tid < 0 {
        return -1;
    }
    let thread = match findActiveThreadByTid(kernel, tid) {
        Some(thread) => thread,
        None => {
            return -1;
        },
    };
    match scheduleThread(kernel, disabledInterrupts, thread) {
        Ok(_) => {
            proof {
                assert(is_scheduled(kernel, thread.0 as int) == ring(kernel).contains(thread.0));
            }
            0
        },
        Err(_) => -1,
    }
}

} // verus!
