//! Mutexes.
//!
//! A mutex is an owned lock around the data, and a waitlist of the threads
//! that ask for it, behind an owned lock of its own. A thread that finds
//! the mutex free and nobody waiting takes it at once. Any other thread
//! registers at the end of the waitlist and keeps trying; between tries it
//! yields to the holder. Whoever unlocks the mutex hands it to the first
//! thread of the waitlist, takes that thread off the list and tells it so
//! through its node; with nobody waiting the mutex becomes free.
//!
//! Each thread has one node in a mutex, named by the index of the thread.

#![allow(non_snake_case)]

use crate::sync::owned_lock::{OwnedLock, OwnedLockGuard};
use crate::thread::ThreadHandle;
use crate::variable_queue::{
    lemma_with_at_contains, lemma_without_contains, linked_at, same_slot, with_at, without, Head,
    Link,
};
use vstd::prelude::*;

verus! {

/// What a waiting thread keeps on the waitlist of a mutex.
#[derive(Clone, Copy, Debug)]
pub struct WaitListNode {
    /// Set by the thread that hands the mutex over: the waiter has been
    /// taken off the waitlist and owns the mutex.
    pub hasLock: bool,
    /// The thread that waits.
    pub thread: Option<ThreadHandle>,
}

/// The threads that wait for a mutex, first come first.
pub type MutexWaitList = Head;

/// A mutex around `T`.
pub struct Mutex<T> {
    /// The waitlist behind its lock.
    pub waitList: OwnedLock<MutexWaitList>,
    /// The lock around the data.
    pub mutexLock: OwnedLock<T>,
    /// The node of every thread.
    pub nodes: Vec<WaitListNode>,
    /// The link slot of every node.
    pub links: Vec<Link>,
}

/// The right to the data of a mutex. It is handed out when the mutex is
/// taken and given back to unlock it.
pub struct MutexGuard {
    guard: OwnedLockGuard,
}

/// How far a thread has come in taking a mutex.
pub enum LockProgress {
    /// The thread owns the mutex.
    Acquired(MutexGuard),
    /// The thread is on the waitlist. It yields to the given holder and
    /// tries again with `lockRetry`.
    Waiting(Option<ThreadHandle>),
}

impl<T> Mutex<T> {
    /// The threads that wait, first come first.
    pub open spec fn waiters(&self) -> Seq<usize> {
        self.waitList.data@
    }

    /// The mutex is taken.
    pub open spec fn locked(&self) -> bool {
        self.mutexLock.status
    }

    /// The thread that owns the mutex.
    pub open spec fn owner(&self) -> Option<ThreadHandle> {
        self.mutexLock.owner
    }

    /// The node at index `i` is that of a waiter: it names its thread and has
    /// not been handed the mutex.
    pub open spec fn waits_at(&self, i: int) -> bool {
        &&& self.nodes[i].thread == Some(ThreadHandle(i as usize))
        &&& !self.nodes[i].hasLock
    }

    /// The mutex is in order. The lock of the waitlist is free. Nobody
    /// waits for a mutex that is free. The waitlist is a well-formed queue
    /// over the link slots and the only user of them. Every node has its
    /// link slot, and the nodes of the waiters name their threads.
    pub open spec fn wf(&self) -> bool {
        &&& self.waitList.wf()
        &&& !self.waitList.status
        &&& self.mutexLock.wf()
        &&& !self.locked() ==> self.waiters().len() == 0
        &&& self.nodes.len() == self.links.len()
        &&& self.waitList.data.wf(self.links@)
        &&& self.waitList.data.exclusive(self.links@)
        &&& forall|k: int| 0 <= k < self.waiters().len() ==> #[trigger] self.waits_at(
            self.waiters()[k] as int,
        )
    }

    /// Nothing about who holds the mutex differs from `pre`.
    pub open spec fn same_holder(&self, pre: &Mutex<T>) -> bool {
        &&& self.mutexLock.status == pre.mutexLock.status
        &&& self.mutexLock.owner == pre.mutexLock.owner
        &&& self.mutexLock.guardCreated == pre.mutexLock.guardCreated
    }

    /// The mutex is held by `current`, whose guard is out.
    pub open spec fn held_by(&self, current: Option<ThreadHandle>) -> bool {
        self.mutexLock.held() && self.mutexLock.owner == current
    }

    /// A free mutex around `data` that nobody waits for.
    pub fn new(data: T) -> (mutex: Mutex<T>)
        ensures
            mutex.wf(),
            !mutex.locked(),
            mutex.waiters().len() == 0,
            mutex.mutexLock.data == data,
    {
        let mutex = Mutex {
            waitList: OwnedLock::new(Head::new()),
            mutexLock: OwnedLock::new(data),
            nodes: Vec::new(),
            links: Vec::new(),
        };
        assert(mutex.waitList.data@.len() == 0);
        mutex
    }

    /// The data, for whoever has the mutex itself to themselves.
    pub fn get_mut(&mut self) -> (data: &mut T)
        ensures
            *data == old(self).mutexLock.data,
            final(self).mutexLock.data == *final(data),
            final(self).same_holder(old(self)),
            final(self).waitList == old(self).waitList,
            final(self).nodes == old(self).nodes,
            final(self).links == old(self).links,
    {
        &mut self.mutexLock.data
    }

    /// Gives the mutex up for good and hands back the data. Returns, with
    /// the data, whether that was in order: nobody was waiting for the
    /// mutex. The nodes of threads that were waiting are left alone.
    pub fn destroy(self) -> (outcome: (T, bool))
        requires
            self.wf(),
        ensures
            outcome.0 == self.mutexLock.data,
            outcome.1 == (self.waiters().len() == 0),
    {
        let legal = self.waitList.data.front_ptr().is_none();
        (self.mutexLock.data, legal)
    }

    /// Makes sure that the thread at `index` has a node.
    fn reserve(&mut self, index: usize)
        requires
            old(self).wf(),
            index < usize::MAX,
        ensures
            final(self).wf(),
            final(self).nodes.len() > index,
            final(self).nodes.len() >= old(self).nodes.len(),
            final(self).waitList == old(self).waitList,
            final(self).mutexLock == old(self).mutexLock,
            forall|i: int|
                0 <= i < old(self).nodes.len() ==> final(self).nodes[i] == old(self).nodes[i]
                    && final(self).links[i] == old(self).links[i],
            forall|i: int|
                old(self).nodes.len() <= i < final(self).nodes.len()
                    ==> !(#[trigger] final(self).links[i]).in_queue_spec(),
    {
        while self.nodes.len() <= index
            invariant
                self.wf(),
                index < usize::MAX,
                self.nodes.len() >= old(self).nodes.len(),
                self.waitList == old(self).waitList,
                self.mutexLock == old(self).mutexLock,
                forall|i: int|
                    0 <= i < old(self).nodes.len() ==> self.nodes[i] == old(self).nodes[i]
                        && self.links[i] == old(self).links[i],
                forall|i: int|
                    old(self).nodes.len() <= i < self.nodes.len()
                        ==> !(#[trigger] self.links[i]).in_queue_spec(),
            decreases index + 1 - self.nodes.len(),
        {
            let ghost before = *self;
            self.nodes.push(WaitListNode { hasLock: false, thread: None });
            self.links.push(Link::new());
            proof {
                assert forall|j: int|
                    0 <= j < before.links@.len() && before.waiters().contains(
                        j as usize,
                    ) implies #[trigger] same_slot(before.links@, self.links@, j) by {}
                before.waitList.data.lemma_wf_frame(before.links@, self.links@);
                assert forall|k: int| 0 <= k < self.waiters().len()
                    implies #[trigger] self.waits_at(
                    self.waiters()[k] as int,
                ) by {
                    assert(before.waits_at(before.waiters()[k] as int));
                    assert(linked_at(before.waiters(), before.links@, k));
                }
            }
        }
    }

    /// Starts taking the mutex for the thread `current`. With nobody
    /// waiting and the mutex open to the caller, the caller owns it at
    /// once. Otherwise the caller is put at the end of the waitlist and
    /// tries the mutex once.
    pub fn lock(&mut self, current: ThreadHandle) -> (progress: LockProgress)
        requires
            old(self).wf(),
            current.0 < usize::MAX,
        ensures
            final(self).wf(),
            final(self).mutexLock.data == old(self).mutexLock.data,
            lock_started(old(self), current, final(self), progress is Acquired),
            progress matches LockProgress::Waiting(holder) ==> holder == old(self).owner(),
    {
        self.reserve(current.0);
        let ghost grown = *self;
        let waitList = match self.waitList.tryLock(Some(current)) {
            Ok(guard) => guard,
            Err(_) => vstd::pervasive::unreached(),
        };
        if self.waitList.data.tail_ptr().is_none() {
            match self.mutexLock.tryLock(Some(current)) {
                Ok(guard) => {
                    waitList.release(&mut self.waitList);
                    proof {
                        assert forall|k: int| 0 <= k < self.waiters().len()
                            implies #[trigger] self.waits_at(
                            self.waiters()[k] as int,
                        ) by {}
                    }
                    return LockProgress::Acquired(MutexGuard { guard });
                },
                Err(_) => {},
            }
        }
        proof {
            if grown.waiters().contains(current.0) {
                grown.waitList.data.lemma_members_marked(grown.links@, current.0);
            }
        }
        self.nodes.set(current.0, WaitListNode { hasLock: false, thread: Some(current) });
        self.waitList.data.insert_tail(&mut self.links, current.0);
        waitList.release(&mut self.waitList);
        proof {
            let before = old(self).waiters();
            let now = self.waiters();
            let fresh = !grown.links[current.0 as int].in_queue_spec();
            assert(grown.waiters() == before);
            if before.contains(current.0) {
                grown.waitList.data.lemma_members_marked(grown.links@, current.0);
            }
            assert(fresh == !before.contains(current.0));
            assert(now == registered(before, current));
            assert forall|x: usize| before.contains(x) implies now.contains(x) by {
                if fresh {
                    assert(now == with_at(before, before.len() as int, current.0));
                    lemma_with_at_contains(before, before.len() as int, current.0, x);
                }
            }
            assert forall|j: int|
                0 <= j < self.links@.len() && (#[trigger] self.links@[j]).in_queue_spec()
                    implies now.contains(j as usize) by {
                if !now.contains(j as usize) {
                    assert(same_slot(grown.links@, self.links@, j));
                    assert(grown.links@[j].in_queue_spec());
                    assert(before.contains(j as usize));
                }
            }
            assert forall|k: int| 0 <= k < now.len() implies #[trigger] self.waits_at(
                now[k] as int,
            ) by {
                if now[k] != current.0 {
                    if fresh {
                        assert(now == with_at(before, before.len() as int, current.0));
                        lemma_with_at_contains(before, before.len() as int, current.0, now[k]);
                    }
                    assert(now.contains(now[k]));
                    assert(before.contains(now[k]));
                    let at = before.index_of(now[k]);
                    assert(grown.waits_at(grown.waiters()[at] as int));
                    assert(linked_at(before, grown.links@, at));
                }
            }
            if fresh {
                crate::variable_queue::lemma_push_then_without(before, current.0);
            }
        }
        self.lockRetry(current)
    }

    /// Tries the mutex again for the thread `current`, which is on the
    /// waitlist or has been handed the mutex. A thread that gets the mutex
    /// without having been handed it has taken it while it was free, and
    /// takes itself off the waitlist.
    pub fn lockRetry(&mut self, current: ThreadHandle) -> (progress: LockProgress)
        requires
            old(self).wf(),
            current.0 < old(self).nodes.len(),
        ensures
            final(self).wf(),
            final(self).mutexLock.data == old(self).mutexLock.data,
            final(self).nodes.len() == old(self).nodes.len(),
            lock_retried(old(self), current, final(self), progress is Acquired),
            progress matches LockProgress::Waiting(holder) ==> holder == old(self).owner(),
    {
        match self.mutexLock.tryLock(Some(current)) {
            Err(holder) => LockProgress::Waiting(holder),
            Ok(guard) => {
                if !self.nodes[current.0].hasLock {
                    let waitList = match self.waitList.tryLock(Some(current)) {
                        Ok(waitList) => waitList,
                        Err(_) => vstd::pervasive::unreached(),
                    };
                    self.waitList.data.remove(&mut self.links, current.0);
                    waitList.release(&mut self.waitList);
                }
                self.nodes.set(current.0, WaitListNode { hasLock: false, thread: Some(current) });
                proof {
                    let before = old(self).waiters();
                    let now = self.waiters();
                    if old(self).nodes[current.0 as int].hasLock {
                        if before.contains(current.0) {
                            let at = before.index_of(current.0);
                            assert(old(self).waits_at(old(self).waiters()[at] as int));
                        }
                        assert(!before.contains(current.0));
                        assert(now == before);
                    } else {
                        if before.contains(current.0) {
                            old(self).waitList.data.lemma_members_marked(
                                old(self).links@,
                                current.0,
                            );
                        }
                    }
                    assert(now == without(before, current.0));
                    assert forall|j: int|
                        0 <= j < self.links@.len()
                            && (#[trigger] self.links@[j]).in_queue_spec() implies now.contains(
                        j as usize,
                    ) by {
                        lemma_without_contains(before, current.0, j as usize);
                        if j != current.0 && !before.contains(j as usize) {
                            assert(same_slot(old(self).links@, self.links@, j));
                        }
                    }
                    assert forall|k: int| 0 <= k < now.len() implies #[trigger] self.waits_at(
                        now[k] as int,
                    ) by {
                        lemma_without_contains(before, current.0, now[k]);
                        assert(now.contains(now[k]));
                        assert(before.contains(now[k]));
                        assert(now[k] != current.0);
                        let at = before.index_of(now[k]);
                        assert(old(self).waits_at(old(self).waiters()[at] as int));
                        assert(linked_at(before, old(self).links@, at));
                    }
                }
                LockProgress::Acquired(MutexGuard { guard })
            },
        }
    }

    /// Takes the mutex for `current` if that needs no waiting: nobody is on
    /// the waitlist and the mutex is open to the caller.
    pub fn tryLock(&mut self, current: Option<ThreadHandle>) -> (guard: Option<MutexGuard>)
        requires
            old(self).wf(),
        ensures
            final(self).wf(),
            final(self).mutexLock.data == old(self).mutexLock.data,
            final(self).waiters() == old(self).waiters(),
            final(self).nodes == old(self).nodes,
            guard is Some <==> old(self).waiters().len() == 0
                && old(self).mutexLock.open_to(current),
            guard is Some ==> final(self).held_by(current),
            guard is None ==> final(self).same_holder(old(self)),
    {
        let waitList = match self.waitList.tryLock(current) {
            Ok(guard) => guard,
            Err(_) => vstd::pervasive::unreached(),
        };
        let taken = if self.waitList.data.tail_ptr().is_none() {
            match self.mutexLock.tryLock(current) {
                Ok(guard) => Some(MutexGuard { guard }),
                Err(_) => None,
            }
        } else {
            None
        };
        waitList.release(&mut self.waitList);
        proof {
            assert forall|k: int| 0 <= k < self.waiters().len() implies #[trigger] self.waits_at(
                self.waiters()[k] as int,
            ) by {
                assert(old(self).waits_at(old(self).waiters()[k] as int));
            }
        }
        taken
    }
}

/// What the waitlist is once `current` has registered: `current` is at the
/// end, unless it was on the list already.
pub open spec fn registered(waiters: Seq<usize>, current: ThreadHandle) -> Seq<usize> {
    if waiters.contains(current.0) {
        waiters
    } else {
        waiters.push(current.0)
    }
}

/// What `lockRetry` does. The caller gets the mutex exactly when it is open
/// to the caller: free, or handed to the caller. It is then off the
/// waitlist and owns the mutex. Otherwise nothing changes.
pub open spec fn lock_retried<T>(pre: &Mutex<T>, current: ThreadHandle, post: &Mutex<T>,
    acquired: bool) -> bool {
    &&& acquired == pre.mutexLock.open_to(Some(current))
    &&& if acquired {
        &&& post.held_by(Some(current))
        &&& post.waiters() == without(pre.waiters(), current.0)
    } else {
        &&& post.same_holder(pre)
        &&& post.waiters() == pre.waiters()
        &&& post.nodes == pre.nodes
    }
}

/// What `lock` does. With nobody waiting and the mutex open to the caller,
/// the caller gets it at once and the waitlist stays empty. Otherwise the
/// caller registers and tries once, as `lockRetry` does.
pub open spec fn lock_started<T>(pre: &Mutex<T>, current: ThreadHandle, post: &Mutex<T>,
    acquired: bool) -> bool {
    &&& acquired == pre.mutexLock.open_to(Some(current))
    &&& if acquired {
        &&& post.held_by(Some(current))
        &&& post.waiters() == without(pre.waiters(), current.0)
    } else {
        &&& post.same_holder(pre)
        &&& post.waiters() == registered(pre.waiters(), current)
    }
}

/// What unlocking does. With nobody waiting the mutex becomes free.
/// Otherwise the first waiter is taken off the waitlist, owns the mutex and
/// is told so; the mutex stays taken, and the other waiters keep their
/// order.
pub open spec fn unlocked<T>(pre: &Mutex<T>, post: &Mutex<T>) -> bool {
    if pre.waiters().len() == 0 {
        &&& !post.locked()
        &&& post.owner() is None
        &&& post.waiters() == pre.waiters()
        &&& post.nodes == pre.nodes
    } else {
        &&& post.locked()
        &&& post.owner() == Some(ThreadHandle(pre.waiters()[0]))
        &&& post.mutexLock.open_to(Some(ThreadHandle(pre.waiters()[0])))
        &&& post.waiters() == pre.waiters().skip(1)
        &&& post.nodes@ == pre.nodes@.update(
            pre.waiters()[0] as int,
            WaitListNode { hasLock: true, thread: Some(ThreadHandle(pre.waiters()[0])) },
        )
    }
}

impl MutexGuard {
    /// The data of the mutex.
    pub fn deref<'a, T>(&self, mutex: &'a Mutex<T>) -> (data: &'a T)
        requires
            mutex.mutexLock.held(),
        ensures
            *data == mutex.mutexLock.data,
    {
        &mutex.mutexLock.data
    }

    /// The data of the mutex, to be changed in place.
    pub fn deref_mut<'a, T>(&mut self, mutex: &'a mut Mutex<T>) -> (data: &'a mut T)
        requires
            old(mutex).mutexLock.held(),
        ensures
            *data == old(mutex).mutexLock.data,
            final(mutex).mutexLock.data == *final(data),
            final(mutex).same_holder(old(mutex)),
            final(mutex).waitList == old(mutex).waitList,
            final(mutex).nodes == old(mutex).nodes,
            final(mutex).links == old(mutex).links,
    {
        &mut mutex.mutexLock.data
    }

    /// Unlocks the mutex: hands it to the first waiter, or frees it where
    /// nobody waits.
    pub fn unlock<T>(self, mutex: &mut Mutex<T>)
        requires
            old(mutex).wf(),
            old(mutex).mutexLock.held(),
        ensures
            final(mutex).wf(),
            final(mutex).mutexLock.data == old(mutex).mutexLock.data,
            unlocked(old(mutex), final(mutex)),
    {
        let holder = mutex.mutexLock.owner();
        let waitList = match mutex.waitList.tryLock(holder) {
            Ok(guard) => guard,
            Err(_) => vstd::pervasive::unreached(),
        };
        match mutex.waitList.data.front_ptr() {
            None => {
                self.guard.release(&mut mutex.mutexLock);
                waitList.release(&mut mutex.waitList);
                proof {
                    assert forall|k: int| 0 <= k < mutex.waiters().len()
                        implies #[trigger] mutex.waits_at(
                        mutex.waiters()[k] as int,
                    ) by {}
                }
            },
            Some(nextRunner) => {
                let ghost before = old(mutex).waiters();
                proof {
                    assert(linked_at(before, old(mutex).links@, 0));
                    assert(old(mutex).waits_at(before[0] as int));
                    crate::variable_queue::lemma_without_at(before, 0);
                    assert(before.remove(0) =~= before.skip(1));
                }
                mutex.waitList.data.remove(&mut mutex.links, nextRunner);
                waitList.release(&mut mutex.waitList);
                let thread = match mutex.nodes[nextRunner].thread {
                    Some(thread) => thread,
                    None => vstd::pervasive::unreached(),
                };
                self.guard.transferLockTo(&mut mutex.mutexLock, thread);
                mutex.nodes.set(nextRunner, WaitListNode { hasLock: true, thread: Some(thread) });
                proof {
                    let now = mutex.waiters();
                    assert forall|j: int|
                        0 <= j < mutex.links@.len()
                            && (#[trigger] mutex.links@[j]).in_queue_spec() implies now.contains(
                        j as usize,
                    ) by {
                        lemma_without_contains(before, nextRunner, j as usize);
                        if j != nextRunner && !before.contains(j as usize) {
                            assert(same_slot(old(mutex).links@, mutex.links@, j));
                        }
                    }
                    assert forall|k: int| 0 <= k < now.len() implies #[trigger] mutex.waits_at(
                        now[k] as int,
                    ) by {
                        assert(now == before.skip(1));
                        assert(now[k] == before[k + 1]);
                        assert(old(mutex).waits_at(old(mutex).waiters()[k + 1] as int));
                        assert(linked_at(before, old(mutex).links@, k + 1));
                        assert(before[k + 1] != before[0]);
                    }
                }
            },
        }
    }
}

/// Waiters get the mutex in the order in which they registered. Take a
/// mutex that is held while the threads of `order` wait, and let it be
/// unlocked and then taken by its new owner, once for every waiter:
/// `states[2 * k]` is the mutex before the unlock number `k`,
/// `states[2 * k + 1]` the mutex after it, and `states[2 * k + 2]` the
/// mutex once the new owner has taken it. Then unlock number `k` hands the
/// mutex to waiter number `k`, and the waiters behind it keep waiting in
/// their order.
pub proof fn lemma_waiters_served_in_order<T>(states: Seq<Mutex<T>>, order: Seq<usize>, k: int)
    requires
        states.len() == 2 * order.len() + 1,
        states[0].wf(),
        states[0].waiters() == order,
        forall|i: int|
            0 <= i < order.len() ==> #[trigger] unlocked(&states[2 * i], &states[2 * i + 1])
                && lock_retried(
                &states[2 * i + 1],
                ThreadHandle(order[i]),
                &states[2 * i + 2],
                true,
            ),
        0 <= k < order.len(),
    ensures
        states[2 * k].waiters() == order.skip(k),
        states[2 * k + 1].owner() == Some(ThreadHandle(order[k])),
        states[2 * k + 2].held_by(Some(ThreadHandle(order[k]))),
        states[2 * k + 2].waiters() == order.skip(k + 1),
    decreases k,
{
    if k == 0 {
        assert(order.skip(0) =~= order);
    } else {
        lemma_waiters_served_in_order(states, order, k - 1);
    }
    let waiting = order.skip(k);
    assert(waiting[0] == order[k]);
    assert(unlocked(&states[2 * k], &states[2 * k + 1]) && lock_retried(
        &states[2 * k + 1],
        ThreadHandle(order[k]),
        &states[2 * k + 2],
        true,
    ));
    assert(waiting.skip(1) =~= order.skip(k + 1));
    let rest = order.skip(k + 1);
    if rest.contains(order[k]) {
        let at = rest.index_of(order[k]);
        assert(order[k + 1 + at] == order[k]);
    }
}

} // verus!
