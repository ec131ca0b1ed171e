//! A lightweight lock that records its owner.
//!
//! The lock is a flag that is swapped to take it, together with the thread
//! that holds it. A thread that finds the lock taken learns who holds it and
//! can yield to that thread. The lock is not re-entrant: while the holder's
//! guard is out, the holder itself cannot take the lock a second time.

#![allow(non_snake_case)]

use crate::sync::disable_interrupts::guards_held;
use crate::thread::context_switch::{yielded, yieldThread, Switch};
use crate::thread::{Kernel, ThreadHandle};
use vstd::prelude::*;

verus! {

/// Whether a lock flag is taken.
pub type LockedStatus = bool;

/// The flag of a lock that is taken.
pub const LOCKED: LockedStatus = true;

/// The flag of a lock that is free.
pub const UNLOCKED: LockedStatus = false;

/// A lock around `data` that records which thread holds it.
pub struct OwnedLock<T> {
    /// Whether the lock is taken.
    pub status: LockedStatus,
    /// The thread that holds the lock. `None` while the lock is free, and
    /// while it is held by the boot context, before any thread runs.
    pub owner: Option<ThreadHandle>,
    /// Whether the holder's guard is out.
    pub guardCreated: bool,
    /// What the lock protects.
    pub data: T,
}

/// The right to what an `OwnedLock` protects. It is handed out when the lock
/// is taken and given back to release or to transfer the lock.
pub struct OwnedLockGuard {
    held: (),
}

/// What a thread that could not take a lock waits for.
#[derive(Clone, Copy, Debug, PartialEq, Eq, Structural)]
pub enum WaitFor {
    /// The calling thread holds the lock already and its guard is out: it
    /// waits for that guard to be given back.
    OwnGuard,
    /// Another thread, or the boot context, holds the lock: the caller
    /// yields to the holder.
    Owner(Option<ThreadHandle>),
}

/// Swaps a lock flag to taken. Returns whether the flag was taken already,
/// that is, whether the attempt failed.
pub fn try_lock(flag: &mut LockedStatus) -> (taken_before: bool)
    ensures
        taken_before == *old(flag),
        *final(flag) == LOCKED,
{
    let before = *flag;
    *flag = LOCKED;
    before == LOCKED
}

/// Sets a lock flag to free.
pub fn unlock(flag: &mut LockedStatus)
    ensures
        *final(flag) == UNLOCKED,
{
    *flag = UNLOCKED;
}

impl<T> OwnedLock<T> {
    /// A free lock has no owner and no guard out, and a guard is out only
    /// while the lock is taken.
    pub open spec fn wf(&self) -> bool {
        &&& !self.status ==> self.owner is None && !self.guardCreated
    }

    /// The lock is taken and the guard of its holder is out.
    pub open spec fn held(&self) -> bool {
        self.status && self.guardCreated
    }

    /// The thread `current` would get the lock if it tried now: the lock is
    /// free, or it has been handed to `current` and no guard is out yet.
    pub open spec fn open_to(&self, current: Option<ThreadHandle>) -> bool {
        !self.status || (self.owner == current && !self.guardCreated)
    }

    /// A free lock around `data`.
    pub fn new(data: T) -> (lock: OwnedLock<T>)
        ensures
            lock.wf(),
            !lock.status,
            lock.owner is None,
            !lock.guardCreated,
            lock.data == data,
    {
        OwnedLock { status: UNLOCKED, owner: None, guardCreated: false, data }
    }

    /// What the lock protects, for whoever has the lock itself to
    /// themselves.
    pub fn get_mut(&mut self) -> (data: &mut T)
        ensures
            *data == old(self).data,
            final(self).data == *final(data),
            final(self).status == old(self).status,
            final(self).owner == old(self).owner,
            final(self).guardCreated == old(self).guardCreated,
    {
        &mut self.data
    }

    /// Tries to take the lock for the thread `current`. On success the
    /// caller is the owner and gets the guard. On failure the lock is left
    /// as it was and the caller learns who holds it.
    pub fn tryLock(&mut self, current: Option<ThreadHandle>) -> (outcome: Result<
        OwnedLockGuard,
        Option<ThreadHandle>,
    >)
        requires
            old(self).wf(),
        ensures
            final(self).wf(),
            final(self).data == old(self).data,
            old(self).open_to(current) ==> {
                &&& outcome is Ok
                &&& final(self).status
                &&& final(self).owner == current
                &&& final(self).guardCreated
            },
            !old(self).open_to(current) ==> {
                &&& outcome == Err::<OwnedLockGuard, Option<ThreadHandle>>(old(self).owner)
                &&& final(self).status == old(self).status
                &&& final(self).owner == old(self).owner
                &&& final(self).guardCreated == old(self).guardCreated
            },
    {
        if !try_lock(&mut self.status) {
            self.owner = current;
        }
        let owner = self.owner;
        if same_thread(owner, current) && !self.guardCreated {
            self.guardCreated = true;
            Ok(OwnedLockGuard { held: () })
        } else {
            Err(owner)
        }
    }

    /// The thread that holds the lock.
    pub fn owner(&self) -> (owner: Option<ThreadHandle>)
        ensures
            owner == self.owner,
    {
        self.owner
    }

    /// One round of waiting for the lock: tries to take it and, where that
    /// fails, says what the caller is to wait for before the next round. A
    /// caller that holds the lock already, with its guard out, waits for
    /// that guard; any other caller waits for the owner.
    pub fn waitForLockWith(&mut self, current: Option<ThreadHandle>) -> (outcome: Result<
        OwnedLockGuard,
        WaitFor,
    >)
        requires
            old(self).wf(),
        ensures
            final(self).wf(),
            final(self).data == old(self).data,
            old(self).open_to(current) ==> {
                &&& outcome is Ok
                &&& final(self).status
                &&& final(self).owner == current
                &&& final(self).guardCreated
            },
            !old(self).open_to(current) ==> {
                &&& outcome == Err::<OwnedLockGuard, WaitFor>(
                    if old(self).owner == current {
                        WaitFor::OwnGuard
                    } else {
                        WaitFor::Owner(old(self).owner)
                    },
                )
                &&& final(self).status == old(self).status
                &&& final(self).owner == old(self).owner
                &&& final(self).guardCreated == old(self).guardCreated
            },
    {
        match self.tryLock(current) {
            Ok(guard) => Ok(guard),
            Err(owner) => {
                if same_thread(owner, current) {
                    Err(WaitFor::OwnGuard)
                } else {
                    Err(WaitFor::Owner(owner))
                }
            },
        }
    }
}

impl<T> OwnedLock<T> {
    /// One round of waiting for the lock on behalf of the thread that runs:
    /// tries to take the lock and, where that fails, decides on a switch to
    /// the owner so that it can get on and release the lock. The switch goes
    /// to the next thread of the ring where the lock has no owner that can
    /// be switched to by name: the boot context holds it, or the caller
    /// itself. `Err(None)` means that no switch is possible; the caller
    /// tries again all the same.
    pub fn waitForLock(&mut self, kernel: &mut Kernel) -> (outcome: Result<
        OwnedLockGuard,
        Option<Switch>,
    >)
        requires
            old(self).wf(),
            old(kernel).wf(),
            guards_held(old(kernel)) < u32::MAX,
        ensures
            final(self).wf(),
            final(kernel).wf(),
            final(self).data == old(self).data,
            final(kernel).current == old(kernel).current,
            outcome is Ok <==> old(self).open_to(old(kernel).current),
            outcome is Ok ==> {
                &&& final(self).status
                &&& final(self).owner == old(kernel).current
                &&& final(self).guardCreated
                &&& *final(kernel) == *old(kernel)
            },
            outcome matches Err(decision) ==> {
                &&& final(self).status == old(self).status
                &&& final(self).owner == old(self).owner
                &&& final(self).guardCreated == old(self).guardCreated
                &&& yielded(
                    old(kernel),
                    yield_to(old(self).owner, old(kernel)),
                    final(kernel),
                    match decision {
                        Some(switch) => Some(switch.target),
                        None => None,
                    },
                )
            },
    {
        let current = kernel.current;
        match self.waitForLockWith(current) {
            Ok(guard) => Ok(guard),
            Err(wait) => {
                let owner = match wait {
                    WaitFor::OwnGuard => None,
                    WaitFor::Owner(owner) => match owner {
                        Some(thread) => if thread.0 < kernel.blocks.len() && !same_thread(
                            owner,
                            current,
                        ) {
                            Some(thread)
                        } else {
                            None
                        },
                        None => None,
                    },
                };
                match yieldThread(kernel, owner) {
                    Ok(switch) => Err(Some(switch)),
                    Err(_) => Err(None),
                }
            },
        }
    }

    /// Gives the lock up for good and hands back what it protected.
    /// Returns, with the data, whether that was in order: the lock was
    /// free.
    pub fn destroy(self) -> (outcome: (T, bool))
        ensures
            outcome.0 == self.data,
            outcome.1 == !self.status,
    {
        let legal = !self.status;
        (self.data, legal)
    }
}

/// The thread that a caller who waits for a lock yields to by name: the
/// owner, where the kernel knows it and it is not the caller itself.
pub open spec fn yield_to(owner: Option<ThreadHandle>, kernel: &Kernel) -> Option<ThreadHandle> {
    match owner {
        Some(thread) => if kernel.knows(thread) && owner != kernel.current {
            Some(thread)
        } else {
            None
        },
        None => None,
    }
}

/// Whether two handles name the same thread, or both name none.
pub fn same_thread(a: Option<ThreadHandle>, b: Option<ThreadHandle>) -> (same: bool)
    ensures
        same == (a == b),
{
    match (a, b) {
        (Some(x), Some(y)) => x.0 == y.0,
        (None, None) => true,
        _ => false,
    }
}

impl OwnedLockGuard {
    /// Hands the lock to `thread` without releasing it: the lock stays
    /// taken, `thread` is its owner, and the guard is given up, so that
    /// `thread` gets a guard of its own when it next tries the lock.
    pub fn transferLockTo<T>(self, lock: &mut OwnedLock<T>, thread: ThreadHandle)
        requires
            old(lock).held(),
        ensures
            final(lock).wf(),
            final(lock).status == LOCKED,
            final(lock).owner == Some(thread),
            !final(lock).guardCreated,
            final(lock).data == old(lock).data,
            final(lock).open_to(Some(thread)),
    {
        lock.owner = Some(thread);
        lock.guardCreated = false;
    }

    /// What the lock protects.
    pub fn deref<'a, T>(&self, lock: &'a OwnedLock<T>) -> (data: &'a T)
        requires
            lock.held(),
        ensures
            *data == lock.data,
    {
        &lock.data
    }

    /// What the lock protects, to be changed in place.
    pub fn deref_mut<'a, T>(&mut self, lock: &'a mut OwnedLock<T>) -> (data: &'a mut T)
        requires
            old(lock).held(),
        ensures
            *data == old(lock).data,
            final(lock).data == *final(data),
            final(lock).status == old(lock).status,
            final(lock).owner == old(lock).owner,
            final(lock).guardCreated == old(lock).guardCreated,
    {
        &mut lock.data
    }

    /// Releases the lock: it is free again and has no owner.
    pub fn release<T>(self, lock: &mut OwnedLock<T>)
        requires
            old(lock).held(),
        ensures
            final(lock).wf(),
            final(lock).status == UNLOCKED,
            final(lock).owner is None,
            !final(lock).guardCreated,
            final(lock).data == old(lock).data,
    {
        lock.owner = None;
        lock.guardCreated = false;
        unlock(&mut lock.status);
    }
}

} // verus!
