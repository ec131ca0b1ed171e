//! Condition variables.
//!
//! A condition variable is a queue of the threads that wait for a signal,
//! behind a mutex. A waiter registers, unlocks the mutex of its caller and
//! blocks until its flag is set. A signal takes the first waiter off the
//! queue, sets its flag and schedules it; a broadcast does so for every
//! waiter. The flag closes the gap between registering and blocking: a
//! waiter that is signalled before it blocks finds its flag set and does
//! not block at all.
//!
//! Each thread has one node in a condition variable, named by the index of
//! the thread.

#![allow(non_snake_case)]

use crate::sync::disable_interrupts::DisabledInterruptsGuard;
use crate::sync::mutex::{lock_started, registered, unlocked, LockProgress, Mutex, MutexGuard};
use crate::thread::scheduler::{
    blockUntil, blocked, wakeThread, woken, woken_all, BlockStep,
};
use crate::thread::{Kernel, ThreadHandle};
use crate::variable_queue::{
    lemma_with_at_contains, lemma_without_contains, linked_at, same_slot, with_at, Head, Link,
};
use vstd::prelude::*;

verus! {

/// The flag of a waiter that has not been signalled: it blocks.
pub const TRY_TO_DESCHEDULE: bool = false;

/// The flag of a waiter that has been signalled: it does not block.
pub const DO_NOT_DESCHEDULE: bool = true;

/// Sets a flag to `DO_NOT_DESCHEDULE`. Returns what the flag was.
pub fn send_signal(flag: &mut bool) -> (before: bool)
    ensures
        before == *old(flag),
        *final(flag) == DO_NOT_DESCHEDULE,
{
    let before = *flag;
    *flag = DO_NOT_DESCHEDULE;
    before
}

/// Sets a flag to `TRY_TO_DESCHEDULE`. Returns what the flag was, and so
/// whether a signal had been sent.
pub fn do_deschedule(flag: &mut bool) -> (before: bool)
    ensures
        before == *old(flag),
        *final(flag) == TRY_TO_DESCHEDULE,
{
    let before = *flag;
    *flag = TRY_TO_DESCHEDULE;
    before
}

/// What a waiting thread keeps on the queue of a condition variable.
#[derive(Clone, Copy, Debug)]
pub struct QueueNode {
    /// The thread that waits.
    pub thread: Option<ThreadHandle>,
    /// Set by the signal: the waiter is not to block any more.
    pub doNotDeschedule: bool,
}

/// The threads that wait for a signal, first come first.
pub type CondQueue = Head;

/// A condition variable.
pub struct Cond {
    /// The queue of the waiters behind its mutex.
    pub queue: Mutex<CondQueue>,
    /// The node of every thread.
    pub nodes: Vec<QueueNode>,
    /// The link slot of every node.
    pub links: Vec<Link>,
}

/// How far a waiter that has registered has come.
pub enum WaitProgress {
    /// The waiter was signalled and owns the mutex of its caller again.
    Relocked(MutexGuard),
    /// The waiter was signalled and is on the waitlist of the mutex of its
    /// caller. It yields to the given holder and goes on with `lockRetry`
    /// on the mutex.
    Relocking(Option<ThreadHandle>),
    /// The waiter was not signalled and is off the run queue. It asks again
    /// once it runs again.
    Blocked(BlockStep),
}

impl Cond {
    /// The threads that wait, first come first.
    pub open spec fn waiting(&self) -> Seq<usize> {
        self.queue.mutexLock.data@
    }

    /// The node at index `i` is that of a waiter: it names its thread and has
    /// not been signalled.
    pub open spec fn waits_at(&self, i: int) -> bool {
        &&& self.nodes[i].thread == Some(ThreadHandle(i as usize))
        &&& !self.nodes[i].doNotDeschedule
    }

    /// The thread has been signalled since it registered last.
    pub open spec fn is_signalled(&self, thread: ThreadHandle) -> bool {
        thread.0 < self.nodes.len() && self.nodes[thread.0 as int].doNotDeschedule
    }

    /// The condition variable is in order. The mutex around the queue is
    /// free and nobody waits for it. The queue is a well-formed queue over
    /// the link slots and the only user of them. Every node has its link
    /// slot, and the nodes of the waiters name their threads and are not
    /// signalled.
    pub open spec fn wf(&self) -> bool {
        &&& self.queue.wf()
        &&& !self.queue.locked()
        &&& self.queue.waiters().len() == 0
        &&& self.nodes.len() == self.links.len()
        &&& self.queue.mutexLock.data.wf(self.links@)
        &&& self.queue.mutexLock.data.exclusive(self.links@)
        &&& forall|k: int| 0 <= k < self.waiting().len() ==> #[trigger] self.waits_at(
            self.waiting()[k] as int,
        )
    }

    /// A condition variable that nobody waits for.
    pub fn new() -> (cond: Cond)
        ensures
            cond.wf(),
            cond.waiting().len() == 0,
            cond.nodes.len() == 0,
    {
        let cond = Cond { queue: Mutex::new(Head::new()), nodes: Vec::new(), links: Vec::new() };
        assert(cond.queue.mutexLock.data@.len() == 0);
        cond
    }

    /// Gives the condition variable up for good. Returns whether that was
    /// in order: nobody was waiting for a signal.
    pub fn destroy(self) -> (legal: bool)
        requires
            self.wf(),
        ensures
            legal == (self.waiting().len() == 0),
    {
        self.queue.mutexLock.data.front_ptr().is_none()
    }

    /// Whether the thread has been signalled since it registered last.
    pub fn signalled(&self, thread: ThreadHandle) -> (flag: bool)
        ensures
            flag == self.is_signalled(thread),
    {
        if thread.0 < self.nodes.len() {
            self.nodes[thread.0].doNotDeschedule
        } else {
            false
        }
    }

    /// Makes sure that the thread at `index` has a node.
    fn reserve(&mut self, index: usize)
        requires
            old(self).wf(),
            index < usize::MAX,
        ensures
            final(self).wf(),
            final(self).nodes.len() > index,
            final(self).nodes.len() >= old(self).nodes.len(),
            final(self).queue == old(self).queue,
            forall|i: int|
                0 <= i < old(self).nodes.len() ==> final(self).nodes[i] == old(self).nodes[i]
                    && final(self).links[i] == old(self).links[i],
            forall|i: int|
                old(self).nodes.len() <= i < final(self).nodes.len() ==> !final(self).nodes[i].doNotDeschedule,
    {
        while self.nodes.len() <= index
            invariant
                self.wf(),
                index < usize::MAX,
                self.nodes.len() >= old(self).nodes.len(),
                self.queue == old(self).queue,
                forall|i: int|
                    0 <= i < old(self).nodes.len() ==> self.nodes[i] == old(self).nodes[i]
                        && self.links[i] == old(self).links[i],
                forall|i: int|
                    old(self).nodes.len() <= i < self.nodes.len() ==> !self.nodes[i].doNotDeschedule,
            decreases index + 1 - self.nodes.len(),
        {
            let ghost before = *self;
            self.nodes.push(QueueNode { thread: None, doNotDeschedule: false });
            self.links.push(Link::new());
            proof {
                assert forall|j: int|
                    0 <= j < before.links@.len() && before.waiting().contains(
                        j as usize,
                    ) implies #[trigger] same_slot(before.links@, self.links@, j) by {}
                before.queue.mutexLock.data.lemma_wf_frame(before.links@, self.links@);
                assert forall|k: int| 0 <= k < self.waiting().len()
                    implies #[trigger] self.waits_at(
                    self.waiting()[k] as int,
                ) by {
                    assert(before.waits_at(before.waiting()[k] as int));
                    assert(linked_at(before.waiting(), before.links@, k));
                }
            }
        }
    }

    /// Starts waiting for a signal: the caller, who holds `mutex`, registers
    /// at the end of the queue with its flag cleared, and `mutex` is
    /// unlocked. The caller goes on with `resumeWait`.
    pub fn waitForCond<T>(&mut self, mutex: &mut Mutex<T>, guard: MutexGuard, current: ThreadHandle)
        requires
            old(self).wf(),
            old(mutex).wf(),
            old(mutex).mutexLock.held(),
            current.0 < usize::MAX,
        ensures
            final(self).wf(),
            final(mutex).wf(),
            final(mutex).mutexLock.data == old(mutex).mutexLock.data,
            unlocked(old(mutex), final(mutex)),
            final(self).waiting() == registered(old(self).waiting(), current),
            final(self).waiting().contains(current.0),
            !final(self).is_signalled(current),
            forall|i: int|
                0 <= i < old(self).nodes.len() && i != current.0 ==> final(self).nodes[i]
                    == old(self).nodes[i],
            forall|other: ThreadHandle|
                other != current ==> #[trigger] final(self).is_signalled(other) == old(self).is_signalled(other),
    {
        self.reserve(current.0);
        let ghost grown = *self;
        let queue = match self.queue.tryLock(Some(current)) {
            Some(queue) => queue,
            None => vstd::pervasive::unreached(),
        };
        proof {
            if grown.waiting().contains(current.0) {
                grown.queue.mutexLock.data.lemma_members_marked(grown.links@, current.0);
            }
        }
        self.nodes.set(current.0, QueueNode { thread: Some(current), doNotDeschedule: false });
        self.queue.mutexLock.data.insert_tail(&mut self.links, current.0);
        queue.unlock(&mut self.queue);
        proof {
            let before = old(self).waiting();
            let now = self.waiting();
            let fresh = !grown.links[current.0 as int].in_queue_spec();
            assert(grown.waiting() == before);
            assert(fresh == !before.contains(current.0));
            assert(now == registered(before, current));
            assert forall|x: usize| before.contains(x) implies now.contains(x) by {
                if fresh {
                    assert(now == with_at(before, before.len() as int, current.0));
                    lemma_with_at_contains(before, before.len() as int, current.0, x);
                }
            }
            if fresh {
                lemma_with_at_contains(before, before.len() as int, current.0, current.0);
            }
            assert forall|j: int|
                0 <= j < self.links@.len() && (#[trigger] self.links@[j]).in_queue_spec()
                    implies now.contains(j as usize) by {
                if !now.contains(j as usize) {
                    assert(same_slot(grown.links@, self.links@, j));
                    assert(grown.links@[j].in_queue_spec());
                    assert(before.contains(j as usize));
                }
            }
            assert forall|k: int| 0 <= k < now.len() implies #[trigger] self.waits_at(
                now[k] as int,
            ) by {
                if now[k] != current.0 {
                    if fresh {
                        lemma_with_at_contains(before, before.len() as int, current.0, now[k]);
                    }
                    assert(now.contains(now[k]));
                    assert(before.contains(now[k]));
                    let at = before.index_of(now[k]);
                    assert(grown.waits_at(grown.waiting()[at] as int));
                    assert(linked_at(before, grown.links@, at));
                }
            }
        }
        guard.unlock(mutex);
    }

    /// Goes on waiting. A caller that has been signalled, or for whom no
    /// thread runs, takes the mutex of its caller again, as `Mutex::lock`
    /// does. Any other caller is taken off the run queue, as `blockUntil`
    /// does, and asks again once it runs again.
    pub fn resumeWait<T>(
        &mut self,
        kernel: &mut Kernel,
        disabledInterrupts: &DisabledInterruptsGuard,
        mutex: &mut Mutex<T>,
        current: ThreadHandle,
    ) -> (progress: WaitProgress)
        requires
            old(kernel).wf(),
            old(mutex).wf(),
            current.0 < usize::MAX,
        ensures
            final(kernel).wf(),
            final(mutex).wf(),
            *final(self) == *old(self),
            final(mutex).mutexLock.data == old(mutex).mutexLock.data,
            old(self).is_signalled(current) || old(kernel).current is None ==> {
                &&& *final(kernel) == *old(kernel)
                &&& !(progress is Blocked)
                &&& lock_started(old(mutex), current, final(mutex), progress is Relocked)
                &&& progress matches WaitProgress::Relocking(holder) ==> holder
                    == old(mutex).owner()
            },
            !old(self).is_signalled(current) && old(kernel).current is Some ==> {
                &&& *final(mutex) == *old(mutex)
                &&& progress matches WaitProgress::Blocked(step) && blocked(
                    old(kernel),
                    final(kernel),
                    step,
                )
            },
    {
        let flag = self.signalled(current);
        match blockUntil(kernel, disabledInterrupts, flag) {
            BlockStep::Proceed => match mutex.lock(current) {
                LockProgress::Acquired(guard) => WaitProgress::Relocked(guard),
                LockProgress::Waiting(holder) => WaitProgress::Relocking(holder),
            },
            step => WaitProgress::Blocked(step),
        }
    }

    /// Signals the waiter at the front of `queue`, which the caller holds:
    /// the waiter is taken off the queue, its flag is set, and its thread is
    /// woken.
    fn signalAndRemoveQueueNode(
        &mut self,
        kernel: &mut Kernel,
        disabledInterrupts: &DisabledInterruptsGuard,
        node: usize,
    )
        requires
            old(self).inner_wf(),
            old(kernel).wf(),
            old(self).waiting().len() > 0,
            node == old(self).waiting()[0],
        ensures
            final(self).inner_wf(),
            final(self).queue.same_holder(&old(self).queue),
            final(self).queue.waitList == old(self).queue.waitList,
            final(self).queue.nodes == old(self).queue.nodes,
            final(self).queue.links == old(self).queue.links,
            final(kernel).wf(),
            final(self).waiting() == old(self).waiting().skip(1),
            final(self).nodes.len() == old(self).nodes.len(),
            node < old(self).nodes.len(),
            old(kernel).knows(ThreadHandle(node)) ==> final(kernel).blocks[node as int].scheduled,
            final(self).nodes@ == old(self).nodes@.update(
                node as int,
                QueueNode { thread: Some(ThreadHandle(node)), doNotDeschedule: true },
            ),
            woken(old(kernel), ThreadHandle(node), final(kernel)),
    {
        let ghost before = old(self).waiting();
        proof {
            assert(linked_at(before, old(self).links@, 0));
            assert(old(self).waits_at(old(self).waiting()[0] as int));
            crate::variable_queue::lemma_without_at(before, 0);
            assert(before.remove(0) =~= before.skip(1));
        }
        self.queue.mutexLock.data.remove(&mut self.links, node);
        let mut entry = self.nodes[node];
        send_signal(&mut entry.doNotDeschedule);
        self.nodes.set(node, entry);
        proof {
            let now = self.waiting();
            assert forall|j: int|
                0 <= j < self.links@.len() && (#[trigger] self.links@[j]).in_queue_spec()
                    implies now.contains(j as usize) by {
                lemma_without_contains(before, node, j as usize);
                if j != node && !before.contains(j as usize) {
                    assert(same_slot(old(self).links@, self.links@, j));
                }
            }
            assert forall|k: int| 0 <= k < now.len() implies #[trigger] self.waits_at(
                now[k] as int,
            ) by {
                assert(now == before.skip(1));
                assert(now[k] == before[k + 1]);
                assert(old(self).waits_at(old(self).waiting()[k + 1] as int));
                assert(linked_at(before, old(self).links@, k + 1));
                assert(before[k + 1] != before[0]);
            }
        }
        match entry.thread {
            Some(thread) => {
                wakeThread(kernel, disabledInterrupts, thread);
            },
            None => {},
        }
    }

    /// The queue and the nodes are in order, whoever holds the mutex around
    /// the queue.
    pub open spec fn inner_wf(&self) -> bool {
        &&& self.nodes.len() == self.links.len()
        &&& self.queue.mutexLock.data.wf(self.links@)
        &&& self.queue.mutexLock.data.exclusive(self.links@)
        &&& forall|k: int| 0 <= k < self.waiting().len() ==> #[trigger] self.waits_at(
            self.waiting()[k] as int,
        )
    }

    /// The queue and the nodes stay in order while they stay as they are.
    pub proof fn lemma_inner_kept(pre: &Cond, post: &Cond)
        requires
            pre.inner_wf(),
            post.nodes == pre.nodes,
            post.links == pre.links,
            post.queue.mutexLock.data == pre.queue.mutexLock.data,
        ensures
            post.inner_wf(),
    {
        assert forall|k: int| 0 <= k < post.waiting().len() implies #[trigger] post.waits_at(
            post.waiting()[k] as int,
        ) by {
            assert(pre.waits_at(pre.waiting()[k] as int));
        }
    }

    /// Lets the thread that has waited longest go on: it is taken off the
    /// queue, its flag is set, and it is woken. Does nothing where nobody
    /// waits.
    pub fn signalCond(&mut self, kernel: &mut Kernel, disabledInterrupts: &DisabledInterruptsGuard)
        requires
            old(self).wf(),
            old(kernel).wf(),
        ensures
            final(self).wf(),
            final(kernel).wf(),
            signalled_one(old(self), old(kernel), final(self), final(kernel)),
    {
        let current = kernel.current;
        let queue = match self.queue.tryLock(current) {
            Some(queue) => queue,
            None => vstd::pervasive::unreached(),
        };
        proof {
            Cond::lemma_inner_kept(old(self), self);
        }
        match self.queue.mutexLock.data.front_ptr() {
            Some(front) => {
                self.signalAndRemoveQueueNode(kernel, disabledInterrupts, front);
            },
            None => {},
        }
        let ghost held = *self;
        queue.unlock(&mut self.queue);
        proof {
            Cond::lemma_inner_kept(&held, self);
        }
    }

    /// Lets every thread that waits go on, in the order in which they came.
    pub fn broadcastCond(&mut self, kernel: &mut Kernel,
        disabledInterrupts: &DisabledInterruptsGuard)
        requires
            old(self).wf(),
            old(kernel).wf(),
        ensures
            final(self).wf(),
            final(kernel).wf(),
            final(self).waiting().len() == 0,
            final(self).nodes.len() == old(self).nodes.len(),
            forall|i: int|
                0 <= i < old(self).nodes.len() ==> final(self).nodes[i]
                    == if old(self).waiting().contains(i as usize) {
                    QueueNode { thread: Some(ThreadHandle(i as usize)), doNotDeschedule: true }
                } else {
                    old(self).nodes[i]
                },
            woken_all(old(kernel), old(self).waiting(), final(kernel)),
    {
        let current = kernel.current;
        let queue = match self.queue.tryLock(current) {
            Some(queue) => queue,
            None => vstd::pervasive::unreached(),
        };
        let ghost all = old(self).waiting();
        let ghost mut done: int = 0;
        proof {
            Cond::lemma_inner_kept(old(self), self);
            assert(all.skip(0) =~= all);
            assert(all.take(0) =~= Seq::<usize>::empty());
        }
        loop
            invariant
                self.inner_wf(),
                self.queue.wf(),
                self.queue.mutexLock.held(),
                self.queue.waiters().len() == 0,
                kernel.wf(),
                old(self).wf(),
                all == old(self).waiting(),
                0 <= done <= all.len(),
                self.waiting() == all.skip(done),
                self.nodes.len() == old(self).nodes.len(),
                woken_all(old(kernel), all.take(done), kernel),
                forall|i: int|
                    0 <= i < old(self).nodes.len() ==> self.nodes[i] == if all.take(done).contains(
                        i as usize,
                    ) {
                        QueueNode { thread: Some(ThreadHandle(i as usize)), doNotDeschedule: true }
                    } else {
                        old(self).nodes[i]
                    },
            ensures
                done == all.len(),
            decreases all.len() - done,
        {
            let front = match self.queue.mutexLock.data.front_ptr() {
                Some(front) => front,
                None => {
                    break ;
                },
            };
            let ghost before_kernel = *kernel;
            let ghost before = *self;
            self.signalAndRemoveQueueNode(kernel, disabledInterrupts, front);
            proof {
                assert(all.skip(done)[0] == all[done]);
                assert(all.skip(done).skip(1) =~= all.skip(done + 1));
                assert(all.take(done + 1).drop_last() =~= all.take(done));
                assert(all.take(done + 1).last() == all[done]);
                assert(woken_all(old(kernel), all.take(done + 1).drop_last(), &before_kernel)
                    && before_kernel.wf() && woken(
                    &before_kernel,
                    ThreadHandle(all.take(done + 1).last()),
                    kernel,
                ));
                crate::thread::scheduler::lemma_woken_one_more(
                    old(kernel),
                    all.take(done + 1),
                    &before_kernel,
                    kernel,
                );
                assert(self.nodes.len() == before.nodes.len());
                assert(front == all[done]);
                assert forall|i: int| 0 <= i < old(self).nodes.len() implies self.nodes@[i]
                    == if all.take(
                    done + 1,
                ).contains(i as usize) {
                    QueueNode { thread: Some(ThreadHandle(i as usize)), doNotDeschedule: true }
                } else {
                    old(self).nodes[i]
                } by {
                    assert(before.nodes[i] == if all.take(done).contains(i as usize) {
                        QueueNode { thread: Some(ThreadHandle(i as usize)), doNotDeschedule: true }
                    } else {
                        old(self).nodes[i]
                    });
                    assert(self.nodes@[i] == if i == front {
                        QueueNode { thread: Some(ThreadHandle(front)), doNotDeschedule: true }
                    } else {
                        before.nodes@[i]
                    });
                    if all.take(done).contains(i as usize) {
                        let at = all.take(done).index_of(i as usize);
                        assert(all.take(done + 1)[at] == i);
                    }
                    if all.take(done + 1).contains(i as usize) && i != front {
                        let at = all.take(done + 1).index_of(i as usize);
                        assert(all.take(done)[at] == i);
                    }
                    if i == front {
                        assert(all.take(done + 1)[done] == front);
                    }
                }
                done = done + 1;
            }
        }
        proof {
            assert(all.take(done) =~= all);
        }
        let ghost held = *self;
        queue.unlock(&mut self.queue);
        proof {
            Cond::lemma_inner_kept(&held, self);
        }
    }
}

/// What `signalCond` does. Where nobody waits nothing changes. Otherwise
/// the first waiter is taken off the queue, its flag is set and it is
/// woken; the other waiters keep their order.
pub open spec fn signalled_one(pre: &Cond, pre_kernel: &Kernel, post: &Cond,
    post_kernel: &Kernel) -> bool {
    if pre.waiting().len() == 0 {
        &&& post.waiting() == pre.waiting()
        &&& post.nodes == pre.nodes
        &&& *post_kernel == *pre_kernel
    } else {
        let first = pre.waiting()[0];
        &&& post.waiting() == pre.waiting().skip(1)
        &&& post.nodes@ == pre.nodes@.update(
            first as int,
            QueueNode { thread: Some(ThreadHandle(first)), doNotDeschedule: true },
        )
        &&& post.is_signalled(ThreadHandle(first))
        &&& woken(pre_kernel, ThreadHandle(first), post_kernel)
        &&& pre_kernel.knows(ThreadHandle(first)) ==> post_kernel.blocks[first as int].scheduled
    }
}

/// A signal is never lost. Once a thread has registered, a signal that
/// finds it at the front of the queue sets its flag, and with its flag set
/// the thread does not block: it goes on at once where it had not blocked
/// yet, and it is back on the run queue where it had.
pub proof fn lemma_signal_reaches_waiter(
    cond: &Cond,
    kernel: &Kernel,
    waiter: ThreadHandle,
    after: &Cond,
    after_kernel: &Kernel,
)
    requires
        cond.wf(),
        kernel.wf(),
        kernel.knows(waiter),
        cond.waiting().len() > 0,
        cond.waiting()[0] == waiter.0,
        signalled_one(cond, kernel, after, after_kernel),
    ensures
        after.is_signalled(waiter),
        !after.waiting().contains(waiter.0),
        after_kernel.blocks[waiter.0 as int].scheduled,
{
    let before = cond.waiting();
    crate::variable_queue::lemma_without_at(before, 0);
    assert(before.remove(0) =~= before.skip(1));
}

/// A signal that comes after the waiter has blocked is not lost either.
/// The waiter is off the run queue, whatever has run since it blocked. The
/// signal that finds it at the front of the queue sets its flag and puts it
/// back on the run queue, so that it runs again and, with its flag set,
/// goes on.
pub proof fn lemma_signal_wakes_blocked_waiter(
    cond: &Cond,
    kernel: &Kernel,
    waiter: ThreadHandle,
    after: &Cond,
    after_kernel: &Kernel,
)
    requires
        cond.wf(),
        kernel.wf(),
        kernel.knows(waiter),
        !kernel.blocks[waiter.0 as int].scheduled,
        cond.waiting().len() > 0,
        cond.waiting()[0] == waiter.0,
        signalled_one(cond, kernel, after, after_kernel),
    ensures
        after.is_signalled(waiter),
        !after.waiting().contains(waiter.0),
        !crate::thread::scheduler::ring(kernel).contains(waiter.0),
        crate::thread::scheduler::thread_scheduled(kernel, waiter, after_kernel),
        after_kernel.blocks[waiter.0 as int].scheduled,
        crate::thread::scheduler::ring(after_kernel).contains(waiter.0),
{
    lemma_signal_reaches_waiter(cond, kernel, waiter, after, after_kernel);
    assert(crate::thread::scheduler::is_scheduled(kernel, waiter.0 as int)
        == crate::thread::scheduler::ring(kernel).contains(waiter.0));
    crate::thread::scheduler::lemma_woken_marks(kernel, waiter, after_kernel);
    let order = crate::thread::scheduler::ring(kernel);
    match crate::thread::scheduler::cursor(kernel) {
        Some(curr) => {
            assert(order.contains(curr.0));
            lemma_with_at_contains(order, order.index_of(curr.0) + 1, waiter.0, waiter.0);
        },
        None => {
            assert(order.push(waiter.0).last() == waiter.0);
        },
    }
}

} // verus!
