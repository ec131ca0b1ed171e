//! Reader/writer locks.
//!
//! Any number of readers, or one writer, hold the lock at a time. The lock
//! prefers writers: while a writer waits, no new reader gets in. The lock
//! is a status behind a mutex, with the number of readers, the number of
//! writers that wait and the mode of the lock, and two condition
//! variables: readers wait on one and writers on the other.

#![allow(non_snake_case)]

use crate::sync::cond::{signalled_one, Cond};
use crate::sync::disable_interrupts::DisabledInterruptsGuard;
use crate::sync::mutex::{registered, Mutex, MutexGuard};
use crate::thread::scheduler::{blockUntil, blocked, woken_all, BlockStep};
use crate::thread::{Kernel, ThreadHandle};
use vstd::prelude::*;

verus! {

/// Whether readers or a writer hold, or held last, a reader/writer lock.
#[derive(Clone, Copy, Debug, PartialEq, Eq, Structural)]
pub enum RWLockMode {
    /// Readers hold the lock, or nobody does.
    Read,
    /// A writer holds the lock.
    Write,
}

/// The status of a reader/writer lock.
#[derive(Clone, Copy, Debug)]
pub struct RWLockStatus {
    /// Number of readers that hold the lock.
    pub readerCount: u32,
    /// Number of writers that wait for the lock.
    pub writerWaitlistSize: u32,
    /// The mode of the lock.
    pub mode: RWLockMode,
}

/// A reader/writer lock around `T`.
pub struct RWLock<T> {
    /// The status behind its mutex.
    pub status: Mutex<RWLockStatus>,
    /// Where writers wait.
    pub canWrite: Cond,
    /// Where readers wait.
    pub canRead: Cond,
    /// What the lock protects.
    pub data: T,
}

/// The right to read what a reader/writer lock protects.
pub struct ReadGuard {
    held: (),
}

/// The right to read and write what a reader/writer lock protects.
pub struct WriteGuard {
    held: (),
}

/// How far a thread has come in taking a reader/writer lock.
pub enum Access<G> {
    /// The thread holds the lock.
    Acquired(G),
    /// The thread is registered with the condition variable it has to wait
    /// on. It goes on with the retry function of its kind.
    Waiting,
    /// The thread has not been signalled and is off the run queue. It asks
    /// again once it runs again.
    Blocked(BlockStep),
}

impl<T> RWLock<T> {
    /// Number of readers that hold the lock.
    pub open spec fn readers(&self) -> u32 {
        self.status.mutexLock.data.readerCount
    }

    /// Number of writers that wait for the lock.
    pub open spec fn writers_waiting(&self) -> u32 {
        self.status.mutexLock.data.writerWaitlistSize
    }

    /// The mode of the lock.
    pub open spec fn mode(&self) -> RWLockMode {
        self.status.mutexLock.data.mode
    }

    /// A reader has to wait: a writer holds the lock, or a writer waits.
    pub open spec fn reader_must_wait(&self) -> bool {
        self.mode() == RWLockMode::Write || self.writers_waiting() > 0
    }

    /// A writer has to wait: a writer or a reader holds the lock.
    pub open spec fn writer_must_wait(&self) -> bool {
        self.mode() == RWLockMode::Write || self.readers() > 0
    }

    /// The lock is in order: no reader holds it while a writer does, the
    /// mutex around the status is free with nobody waiting for it, and both
    /// condition variables are in order.
    pub open spec fn wf(&self) -> bool {
        &&& self.mode() == RWLockMode::Write ==> self.readers() == 0
        &&& self.status.wf()
        &&& !self.status.locked()
        &&& self.status.waiters().len() == 0
        &&& self.canWrite.wf()
        &&& self.canRead.wf()
    }

    /// A lock around `data` that nobody holds or waits for.
    pub fn new(data: T) -> (lock: RWLock<T>)
        ensures
            lock.wf(),
            lock.readers() == 0,
            lock.writers_waiting() == 0,
            lock.mode() == RWLockMode::Read,
            lock.canRead.waiting().len() == 0,
            lock.canWrite.waiting().len() == 0,
            lock.data == data,
    {
        RWLock {
            status: Mutex::new(
                RWLockStatus { readerCount: 0, writerWaitlistSize: 0, mode: RWLockMode::Read },
            ),
            canWrite: Cond::new(),
            canRead: Cond::new(),
            data,
        }
    }

    /// Gives the lock up for good and hands back what it protected.
    /// Returns, with the data, whether that was in order: no reader and no
    /// writer was waiting.
    pub fn destroy(self) -> (outcome: (T, bool))
        requires
            self.wf(),
        ensures
            outcome.0 == self.data,
            outcome.1 == (self.canWrite.waiting().len() == 0 && self.canRead.waiting().len() == 0),
    {
        let writers = self.canWrite.destroy();
        let readers = self.canRead.destroy();
        (self.data, writers && readers)
    }

    /// Takes the mutex around the status, which is free.
    fn lockStatus(&mut self, current: Option<ThreadHandle>) -> (guard: MutexGuard)
        requires
            old(self).wf(),
        ensures
            final(self).status.wf(),
            final(self).status.mutexLock.held(),
            final(self).status.waiters().len() == 0,
            final(self).status.mutexLock.data == old(self).status.mutexLock.data,
            final(self).canWrite == old(self).canWrite,
            final(self).canRead == old(self).canRead,
            final(self).data == old(self).data,
    {
        match self.status.tryLock(current) {
            Some(guard) => guard,
            None => vstd::pervasive::unreached(),
        }
    }

    /// Asks for read access for the thread `current`. While a writer holds
    /// the lock or waits for it, the caller registers with the readers'
    /// condition variable and goes on with `lockReadRetry`. Otherwise the
    /// caller is one reader more.
    pub fn lockRead(&mut self, current: ThreadHandle) -> (access: Access<ReadGuard>)
        requires
            old(self).wf(),
            old(self).readers() < u32::MAX,
            current.0 < usize::MAX,
        ensures
            final(self).wf(),
            final(self).canWrite == old(self).canWrite,
            read_asked(old(self), current, final(self), access is Acquired),
            !(access is Blocked),
    {
        let guard = self.lockStatus(Some(current));
        let status = self.status.mutexLock.data;
        if writes(status.mode) || status.writerWaitlistSize > 0 {
            self.canRead.waitForCond(&mut self.status, guard, current);
            Access::Waiting
        } else {
            self.status.mutexLock.data.readerCount = status.readerCount + 1;
            self.status.mutexLock.data.mode = RWLockMode::Read;
            guard.unlock(&mut self.status);
            Access::Acquired(ReadGuard { held: () })
        }
    }

    /// Goes on asking for read access. A caller that has been signalled
    /// asks again as `lockRead` does; any other caller is taken off the run
    /// queue, as `blockUntil` does, and asks again once it runs again.
    pub fn lockReadRetry(
        &mut self,
        kernel: &mut Kernel,
        disabledInterrupts: &DisabledInterruptsGuard,
        current: ThreadHandle,
    ) -> (access: Access<ReadGuard>)
        requires
            old(self).wf(),
            old(kernel).wf(),
            old(self).readers() < u32::MAX,
            current.0 < usize::MAX,
        ensures
            final(self).wf(),
            final(kernel).wf(),
            final(self).canWrite == old(self).canWrite,
            old(self).canRead.is_signalled(current) || old(kernel).current is None ==> {
                &&& *final(kernel) == *old(kernel)
                &&& !(access is Blocked)
                &&& read_asked(old(self), current, final(self), access is Acquired)
            },
            !old(self).canRead.is_signalled(current) && old(kernel).current is Some ==> {
                &&& *final(self) == *old(self)
                &&& access matches Access::Blocked(step) && blocked(
                    old(kernel),
                    final(kernel),
                    step,
                )
            },
    {
        let flag = self.canRead.signalled(current);
        match blockUntil(kernel, disabledInterrupts, flag) {
            BlockStep::Proceed => self.lockRead(current),
            step => Access::Blocked(step),
        }
    }

    /// One try at write access for a writer that is counted as waiting.
    /// While a writer or a reader holds the lock, the caller registers with
    /// the writers' condition variable. Otherwise the caller stops waiting
    /// and holds the lock as its writer.
    fn tryWrite(&mut self, current: ThreadHandle) -> (access: Access<WriteGuard>)
        requires
            old(self).wf(),
            current.0 < usize::MAX,
        ensures
            final(self).wf(),
            final(self).canRead == old(self).canRead,
            write_tried(old(self), current, final(self), access is Acquired),
            !(access is Blocked),
    {
        let guard = self.lockStatus(Some(current));
        let status = self.status.mutexLock.data;
        if writes(status.mode) || status.readerCount > 0 {
            self.canWrite.waitForCond(&mut self.status, guard, current);
            Access::Waiting
        } else {
            if status.writerWaitlistSize > 0 {
                self.status.mutexLock.data.writerWaitlistSize = status.writerWaitlistSize - 1;
            }
            self.status.mutexLock.data.mode = RWLockMode::Write;
            guard.unlock(&mut self.status);
            Access::Acquired(WriteGuard { held: () })
        }
    }

    /// Asks for write access for the thread `current`. The caller counts as
    /// a waiting writer from now on, which keeps new readers out. While a
    /// writer or a reader holds the lock, the caller registers with the
    /// writers' condition variable and goes on with `lockWriteRetry`.
    /// Otherwise the caller holds the lock as its writer.
    pub fn lockWrite(&mut self, current: ThreadHandle) -> (access: Access<WriteGuard>)
        requires
            old(self).wf(),
            old(self).writers_waiting() < u32::MAX,
            current.0 < usize::MAX,
        ensures
            final(self).wf(),
            final(self).canRead == old(self).canRead,
            write_asked(old(self), current, final(self), access is Acquired),
            !(access is Blocked),
    {
        let guard = self.lockStatus(Some(current));
        self.status.mutexLock.data.writerWaitlistSize = self.status.mutexLock.data.writerWaitlistSize
            + 1;
        guard.unlock(&mut self.status);
        self.tryWrite(current)
    }

    /// Goes on asking for write access. A caller that has been signalled
    /// tries again; any other caller is taken off the run queue, as
    /// `blockUntil` does, and asks again once it runs again.
    pub fn lockWriteRetry(
        &mut self,
        kernel: &mut Kernel,
        disabledInterrupts: &DisabledInterruptsGuard,
        current: ThreadHandle,
    ) -> (access: Access<WriteGuard>)
        requires
            old(self).wf(),
            old(kernel).wf(),
            current.0 < usize::MAX,
        ensures
            final(self).wf(),
            final(kernel).wf(),
            final(self).canRead == old(self).canRead,
            old(self).canWrite.is_signalled(current) || old(kernel).current is None ==> {
                &&& *final(kernel) == *old(kernel)
                &&& !(access is Blocked)
                &&& write_tried(old(self), current, final(self), access is Acquired)
            },
            !old(self).canWrite.is_signalled(current) && old(kernel).current is Some ==> {
                &&& *final(self) == *old(self)
                &&& access matches Access::Blocked(step) && blocked(
                    old(kernel),
                    final(kernel),
                    step,
                )
            },
    {
        let flag = self.canWrite.signalled(current);
        match blockUntil(kernel, disabledInterrupts, flag) {
            BlockStep::Proceed => self.tryWrite(current),
            step => Access::Blocked(step),
        }
    }
}

/// Whether the mode is that of a writer.
pub fn writes(mode: RWLockMode) -> (writing: bool)
    ensures
        writing == (mode == RWLockMode::Write),
{
    match mode {
        RWLockMode::Write => true,
        RWLockMode::Read => false,
    }
}

/// What asking for read access does. Access is granted exactly when no
/// writer holds the lock and none waits: the caller is one reader more, and
/// nobody new waits. Otherwise the status stays, and the caller is
/// registered with the readers' condition variable, with its flag cleared;
/// the flags of the other threads stay.
pub open spec fn read_asked<T>(pre: &RWLock<T>, current: ThreadHandle, post: &RWLock<T>,
    granted: bool) -> bool {
    &&& granted == !pre.reader_must_wait()
    &&& post.data == pre.data
    &&& if granted {
        &&& post.status.mutexLock.data == (RWLockStatus {
            readerCount: (pre.readers() + 1) as u32,
            mode: RWLockMode::Read,
            ..pre.status.mutexLock.data
        })
        &&& post.canRead == pre.canRead
    } else {
        &&& post.status.mutexLock.data == pre.status.mutexLock.data
        &&& post.canRead.waiting() == registered(pre.canRead.waiting(), current)
        &&& !post.canRead.is_signalled(current)
        &&& forall|other: ThreadHandle|
            other != current ==> #[trigger] post.canRead.is_signalled(other)
                == pre.canRead.is_signalled(other)
    }
}

/// What one try at write access does. Access is granted exactly when
/// neither a writer nor a reader holds the lock: the caller stops counting
/// as waiting and the lock is in write mode. Otherwise the status stays,
/// and the caller is registered with the writers' condition variable.
pub open spec fn write_tried<T>(pre: &RWLock<T>, current: ThreadHandle, post: &RWLock<T>,
    granted: bool) -> bool {
    &&& granted == !pre.writer_must_wait()
    &&& post.data == pre.data
    &&& if granted {
        &&& post.status.mutexLock.data == (RWLockStatus {
            writerWaitlistSize: if pre.writers_waiting() > 0 {
                (pre.writers_waiting() - 1) as u32
            } else {
                0
            },
            mode: RWLockMode::Write,
            ..pre.status.mutexLock.data
        })
        &&& post.canWrite == pre.canWrite
    } else {
        &&& post.status.mutexLock.data == pre.status.mutexLock.data
        &&& post.canWrite.waiting() == registered(pre.canWrite.waiting(), current)
        &&& !post.canWrite.is_signalled(current)
        &&& forall|other: ThreadHandle|
            other != current ==> #[trigger] post.canWrite.is_signalled(other)
                == pre.canWrite.is_signalled(other)
    }
}

/// What asking for write access does: the caller is counted as a waiting
/// writer, and tries once. Where access is granted the count is back where
/// it was.
pub open spec fn write_asked<T>(pre: &RWLock<T>, current: ThreadHandle, post: &RWLock<T>,
    granted: bool) -> bool {
    &&& granted == !pre.writer_must_wait()
    &&& post.data == pre.data
    &&& if granted {
        &&& post.status.mutexLock.data == (RWLockStatus {
            mode: RWLockMode::Write,
            ..pre.status.mutexLock.data
        })
        &&& post.canWrite == pre.canWrite
    } else {
        &&& post.status.mutexLock.data == (RWLockStatus {
            writerWaitlistSize: (pre.writers_waiting() + 1) as u32,
            ..pre.status.mutexLock.data
        })
        &&& post.canWrite.waiting() == registered(pre.canWrite.waiting(), current)
        &&& !post.canWrite.is_signalled(current)
        &&& forall|other: ThreadHandle|
            other != current ==> #[trigger] post.canWrite.is_signalled(other)
                == pre.canWrite.is_signalled(other)
    }
}

/// What giving read access back does: there is one reader less, and where
/// that was the last one, the writer that has waited longest is signalled.
pub open spec fn read_released<T>(
    pre: &RWLock<T>,
    pre_kernel: &Kernel,
    post: &RWLock<T>,
    post_kernel: &Kernel,
) -> bool {
    &&& post.data == pre.data
    &&& post.canRead == pre.canRead
    &&& post.status.mutexLock.data == (RWLockStatus {
        readerCount: (pre.readers() - 1) as u32,
        ..pre.status.mutexLock.data
    })
    &&& if pre.readers() == 1 {
        signalled_one(&pre.canWrite, pre_kernel, &post.canWrite, post_kernel)
    } else {
        post.canWrite == pre.canWrite && *post_kernel == *pre_kernel
    }
}

/// What giving write access back does: the lock is in read mode; where a
/// writer waits, the writer that has waited longest is signalled, and
/// otherwise every reader that waits is.
pub open spec fn write_released<T>(
    pre: &RWLock<T>,
    pre_kernel: &Kernel,
    post: &RWLock<T>,
    post_kernel: &Kernel,
) -> bool {
    &&& post.data == pre.data
    &&& post.status.mutexLock.data == (RWLockStatus {
        mode: RWLockMode::Read,
        ..pre.status.mutexLock.data
    })
    &&& if pre.writers_waiting() > 0 {
        &&& signalled_one(&pre.canWrite, pre_kernel, &post.canWrite, post_kernel)
        &&& post.canRead == pre.canRead
    } else {
        &&& post.canWrite == pre.canWrite
        &&& post.canRead.waiting().len() == 0
        &&& forall|i: int|
            0 <= i < pre.canRead.waiting().len() ==> #[trigger] post.canRead.is_signalled(
                ThreadHandle(pre.canRead.waiting()[i]),
            )
        &&& woken_all(pre_kernel, pre.canRead.waiting(), post_kernel)
    }
}

impl ReadGuard {
    /// What the lock protects.
    pub fn deref<'a, T>(&self, lock: &'a RWLock<T>) -> (data: &'a T)
        ensures
            *data == lock.data,
    {
        &lock.data
    }

    /// Gives read access back. Where the caller was the last reader, the
    /// writer that has waited longest is let in.
    pub fn unlock<T>(
        self,
        lock: &mut RWLock<T>,
        kernel: &mut Kernel,
        disabledInterrupts: &DisabledInterruptsGuard,
    )
        requires
            old(lock).wf(),
            old(kernel).wf(),
            old(lock).readers() > 0,
        ensures
            final(lock).wf(),
            final(kernel).wf(),
            read_released(old(lock), old(kernel), final(lock), final(kernel)),
    {
        let guard = lock.lockStatus(kernel.current);
        lock.status.mutexLock.data.readerCount = lock.status.mutexLock.data.readerCount - 1;
        let last = lock.status.mutexLock.data.readerCount == 0;
        guard.unlock(&mut lock.status);
        if last {
            lock.canWrite.signalCond(kernel, disabledInterrupts);
        }
    }
}

impl WriteGuard {
    /// What the lock protects.
    pub fn deref<'a, T>(&self, lock: &'a RWLock<T>) -> (data: &'a T)
        ensures
            *data == lock.data,
    {
        &lock.data
    }

    /// What the lock protects, to be changed in place.
    pub fn deref_mut<'a, T>(&mut self, lock: &'a mut RWLock<T>) -> (data: &'a mut T)
        ensures
            *data == old(lock).data,
            final(lock).data == *final(data),
            final(lock).status == old(lock).status,
            final(lock).canRead == old(lock).canRead,
            final(lock).canWrite == old(lock).canWrite,
    {
        &mut lock.data
    }

    /// Gives write access back. Where a writer waits, the one that has
    /// waited longest is let in; otherwise every reader that waits is.
    pub fn unlock<T>(
        self,
        lock: &mut RWLock<T>,
        kernel: &mut Kernel,
        disabledInterrupts: &DisabledInterruptsGuard,
    )
        requires
            old(lock).wf(),
            old(kernel).wf(),
        ensures
            final(lock).wf(),
            final(kernel).wf(),
            write_released(old(lock), old(kernel), final(lock), final(kernel)),
    {
        let guard = lock.lockStatus(kernel.current);
        lock.status.mutexLock.data.mode = RWLockMode::Read;
        let writer_waits = lock.status.mutexLock.data.writerWaitlistSize > 0;
        guard.unlock(&mut lock.status);
        if writer_waits {
            lock.canWrite.signalCond(kernel, disabledInterrupts);
        } else {
            let ghost before = lock.canRead;
            lock.canRead.broadcastCond(kernel, disabledInterrupts);
            proof {
                assert forall|i: int|
                    0 <= i < before.waiting().len() implies #[trigger] lock.canRead.is_signalled(
                    ThreadHandle(before.waiting()[i]),
                ) by {
                    assert(before.waiting().contains(before.waiting()[i]));
                    assert(crate::variable_queue::linked_at(before.waiting(), before.links@, i));
                }
            }
        }
    }

    /// Turns write access into read access without letting anyone in
    /// between: the caller is the one reader, and the lock is in read mode.
    pub fn downgradeRWLock<T>(self, lock: &mut RWLock<T>, current: Option<ThreadHandle>) -> (guard:
        ReadGuard)
        requires
            old(lock).wf(),
            old(lock).readers() < u32::MAX,
        ensures
            final(lock).wf(),
            final(lock).data == old(lock).data,
            final(lock).canRead == old(lock).canRead,
            final(lock).canWrite == old(lock).canWrite,
            final(lock).status.mutexLock.data == (RWLockStatus {
                readerCount: (old(lock).readers() + 1) as u32,
                mode: RWLockMode::Read,
                ..old(lock).status.mutexLock.data
            }),
    {
        let status = lock.lockStatus(current);
        lock.status.mutexLock.data.readerCount = lock.status.mutexLock.data.readerCount + 1;
        lock.status.mutexLock.data.mode = RWLockMode::Read;
        status.unlock(&mut lock.status);
        ReadGuard { held: () }
    }
}

/// Writers come first. While a writer waits, a reader that asks for access
/// does not get it, whatever the mode of the lock and however few readers
/// hold it: the reader waits, and the status stays as it is.
pub proof fn lemma_writer_preferred<T>(
    lock: &RWLock<T>,
    reader: ThreadHandle,
    after: &RWLock<T>,
    granted: bool,
)
    requires
        lock.writers_waiting() > 0,
        read_asked(lock, reader, after, granted),
    ensures
        !granted,
        after.readers() == lock.readers(),
        after.writers_waiting() == lock.writers_waiting(),
        after.canRead.waiting().contains(reader.0),
{
    let before = lock.canRead.waiting();
    if !before.contains(reader.0) {
        assert(before.push(reader.0)[before.len() as int] == reader.0);
    }
}

} // verus!
