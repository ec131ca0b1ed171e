use kernel_core::sync::cond::{do_deschedule, send_signal, Cond, WaitProgress};
use kernel_core::sync::disable_interrupts::{disableInterrupts, enableInterrupts};
use kernel_core::sync::mutex::{LockProgress, Mutex, MutexGuard};
use kernel_core::sync::owned_lock::{same_thread, try_lock, unlock, OwnedLock, WaitFor};
use kernel_core::sync::rwlock::{Access, RWLock, RWLockMode, ReadGuard, WriteGuard};
use kernel_core::thread::context_switch::{continueThread, saveAndContinue};
use kernel_core::thread::scheduler::{scheduleThread, BlockStep};
use kernel_core::thread::thread_internal::ThreadBlock;
use kernel_core::thread::{Kernel, ThreadHandle};

fn kernel_running(threads: usize) -> (Kernel, Vec<ThreadHandle>) {
    let mut kernel = Kernel::new();
    let mut handles = Vec::new();
    for _ in 0..threads {
        handles.push(kernel.adopt(ThreadBlock::new()));
    }
    let guard = disableInterrupts(&mut kernel);
    for thread in handles.iter() {
        scheduleThread(&mut kernel, &guard, *thread).unwrap();
    }
    enableInterrupts(&mut kernel, guard);
    (kernel, handles)
}

fn ring(kernel: &Kernel) -> Vec<usize> {
    kernel.sched.lock.data.queue.iter(&kernel.scheduleLinks)
}

fn waiters<T>(mutex: &Mutex<T>) -> Vec<usize> {
    mutex.waitList.data.iter(&mutex.links)
}

fn waiting(cond: &Cond) -> Vec<usize> {
    cond.queue.mutexLock.data.iter(&cond.links)
}

fn acquired(progress: LockProgress) -> MutexGuard {
    match progress {
        LockProgress::Acquired(guard) => guard,
        LockProgress::Waiting(holder) => panic!("still waiting for {:?}", holder),
    }
}

fn holder(progress: LockProgress) -> Option<ThreadHandle> {
    match progress {
        LockProgress::Acquired(_) => panic!("acquired"),
        LockProgress::Waiting(holder) => holder,
    }
}

fn reading(access: Access<ReadGuard>) -> ReadGuard {
    match access {
        Access::Acquired(guard) => guard,
        _ => panic!("no read access"),
    }
}

fn writing(access: Access<WriteGuard>) -> WriteGuard {
    match access {
        Access::Acquired(guard) => guard,
        _ => panic!("no write access"),
    }
}

#[test]
fn lock_flags_swap() {
    let mut flag = false;
    assert!(!try_lock(&mut flag));
    assert!(flag);
    assert!(try_lock(&mut flag));
    unlock(&mut flag);
    assert!(!flag);
    let mut signal = false;
    assert!(!send_signal(&mut signal));
    assert!(signal);
    assert!(do_deschedule(&mut signal));
    assert!(!signal);
    assert!(same_thread(None, None));
    assert!(same_thread(Some(ThreadHandle(1)), Some(ThreadHandle(1))));
    assert!(!same_thread(Some(ThreadHandle(1)), Some(ThreadHandle(2))));
    assert!(!same_thread(None, Some(ThreadHandle(0))));
}

#[test]
fn owned_lock_records_its_owner() {
    let t1 = Some(ThreadHandle(1));
    let t2 = Some(ThreadHandle(2));
    let mut lock = OwnedLock::new(5u32);
    assert!(!lock.status);
    assert_eq!(lock.owner(), None);
    let guard = lock.tryLock(t1).ok().unwrap();
    assert!(lock.status);
    assert_eq!(lock.owner(), t1);
    assert_eq!(*guard.deref(&lock), 5);
    assert_eq!(lock.tryLock(t2).err(), Some(t1));
    assert_eq!(lock.tryLock(t1).err(), Some(t1));
    guard.release(&mut lock);
    assert!(!lock.status);
    assert_eq!(lock.owner(), None);
    assert!(!lock.guardCreated);
    assert!(lock.tryLock(t2).is_ok());
    assert_eq!(lock.owner(), t2);
}

#[test]
fn owned_lock_guard_gives_access_to_the_data() {
    let mut lock = OwnedLock::new(vec![1, 2]);
    let mut guard = lock.tryLock(None).ok().unwrap();
    guard.deref_mut(&mut lock).push(3);
    assert_eq!(guard.deref(&lock), &vec![1, 2, 3]);
    guard.release(&mut lock);
    lock.get_mut().push(4);
    assert_eq!(lock.destroy(), (vec![1, 2, 3, 4], true));
    let mut held = OwnedLock::new(0u8);
    let _guard = held.tryLock(None).ok().unwrap();
    assert_eq!(held.destroy(), (0, false));
}

#[test]
fn owned_lock_transfer_keeps_the_lock_taken() {
    let t1 = ThreadHandle(1);
    let t2 = ThreadHandle(2);
    let mut lock = OwnedLock::new(());
    let guard = lock.tryLock(Some(t1)).ok().unwrap();
    guard.transferLockTo(&mut lock, t2);
    assert!(lock.status);
    assert_eq!(lock.owner(), Some(t2));
    assert_eq!(lock.tryLock(Some(t1)).err(), Some(Some(t2)));
    let guard = lock.tryLock(Some(t2)).ok().unwrap();
    assert_eq!(lock.tryLock(Some(t2)).err(), Some(Some(t2)));
    guard.release(&mut lock);
    assert!(!lock.status);
}

#[test]
fn owned_lock_says_what_to_wait_for() {
    let t1 = Some(ThreadHandle(1));
    let t2 = Some(ThreadHandle(2));
    let mut lock = OwnedLock::new(());
    let guard = lock.waitForLockWith(t1).ok().unwrap();
    assert_eq!(lock.waitForLockWith(t2).err(), Some(WaitFor::Owner(t1)));
    assert_eq!(lock.waitForLockWith(t1).err(), Some(WaitFor::OwnGuard));
    guard.release(&mut lock);
    let boot = lock.waitForLockWith(None).ok().unwrap();
    assert_eq!(lock.waitForLockWith(t1).err(), Some(WaitFor::Owner(None)));
    assert_eq!(lock.waitForLockWith(None).err(), Some(WaitFor::OwnGuard));
    boot.release(&mut lock);
}

#[test]
fn wait_for_lock_yields_to_the_owner() {
    let (mut kernel, t) = kernel_running(3);
    let mut lock = OwnedLock::new(());
    continueThread(&mut kernel, t[2]);
    let guard = lock.waitForLock(&mut kernel).ok().unwrap();
    assert_eq!(lock.owner(), Some(t[2]));
    continueThread(&mut kernel, t[0]);
    let switch = lock.waitForLock(&mut kernel).err().unwrap().unwrap();
    assert_eq!(switch.target, t[2]);
    assert_eq!(kernel.blocks[0].disabledInterruptsRefCount, 1);
    saveAndContinue(&mut kernel, 1000, false, switch.target);
    guard.release(&mut lock);
    continueThread(&mut kernel, t[0]);
    enableInterrupts(&mut kernel, switch.guard);
    assert!(lock.waitForLock(&mut kernel).is_ok());
    assert_eq!(lock.owner(), Some(t[0]));
}

#[test]
fn mutex_fast_path() {
    let t0 = ThreadHandle(0);
    let mut mutex = Mutex::new(10u32);
    let mut guard = acquired(mutex.lock(t0));
    assert_eq!(mutex.mutexLock.owner, Some(t0));
    assert!(mutex.mutexLock.status);
    assert_eq!(waiters(&mutex), Vec::<usize>::new());
    *guard.deref_mut(&mut mutex) += 1;
    assert_eq!(*guard.deref(&mutex), 11);
    guard.unlock(&mut mutex);
    assert!(!mutex.mutexLock.status);
    assert_eq!(mutex.mutexLock.owner, None);
    assert_eq!(*mutex.get_mut(), 11);
    assert_eq!(mutex.destroy(), (11, true));
}

#[test]
fn mutex_try_lock_takes_a_free_mutex_only() {
    let mut mutex = Mutex::new(());
    let guard = mutex.tryLock(None).unwrap();
    assert!(mutex.tryLock(Some(ThreadHandle(1))).is_none());
    assert!(mutex.tryLock(None).is_none());
    guard.unlock(&mut mutex);
    let guard = mutex.tryLock(Some(ThreadHandle(1))).unwrap();
    assert_eq!(holder(mutex.lock(ThreadHandle(2))), Some(ThreadHandle(1)));
    guard.unlock(&mut mutex);
    assert!(mutex.tryLock(Some(ThreadHandle(3))).is_none());
    assert!(mutex.tryLock(None).is_none());
    assert_eq!(waiters(&mutex), Vec::<usize>::new());
    let guard = mutex.tryLock(Some(ThreadHandle(2))).unwrap();
    assert!(mutex.tryLock(Some(ThreadHandle(2))).is_none());
    guard.unlock(&mut mutex);
    assert!(mutex.tryLock(Some(ThreadHandle(3))).is_some());
}

#[test]
fn mutex_waiters_are_served_first_come_first() {
    let t: Vec<ThreadHandle> = (0..5).map(ThreadHandle).collect();
    let mut mutex = Mutex::new(Vec::<usize>::new());
    let mut guard = acquired(mutex.lock(t[0]));
    assert_eq!(holder(mutex.lock(t[3])), Some(t[0]));
    assert_eq!(holder(mutex.lock(t[1])), Some(t[0]));
    assert_eq!(holder(mutex.lock(t[4])), Some(t[0]));
    assert_eq!(holder(mutex.lock(t[2])), Some(t[0]));
    assert_eq!(waiters(&mutex), vec![3, 1, 4, 2]);
    assert_eq!(holder(mutex.lockRetry(t[1])), Some(t[0]));
    assert_eq!(waiters(&mutex), vec![3, 1, 4, 2]);
    for expected in [3usize, 1, 4, 2] {
        guard.deref_mut(&mut mutex).push(expected);
        guard.unlock(&mut mutex);
        assert!(mutex.mutexLock.status);
        assert_eq!(mutex.mutexLock.owner, Some(t[expected]));
        assert!(mutex.nodes[expected].hasLock);
        for other in [3usize, 1, 4, 2] {
            if other != expected && waiters(&mutex).contains(&other) {
                assert_eq!(holder(mutex.lockRetry(t[other])), Some(t[expected]));
            }
        }
        guard = acquired(mutex.lockRetry(t[expected]));
        assert!(!mutex.nodes[expected].hasLock);
    }
    assert_eq!(waiters(&mutex), Vec::<usize>::new());
    guard.unlock(&mut mutex);
    assert!(!mutex.mutexLock.status);
    assert_eq!(mutex.destroy(), (vec![3, 1, 4, 2], true));
}

#[test]
fn mutex_registration_happens_once() {
    let mut mutex = Mutex::new(());
    let guard = acquired(mutex.lock(ThreadHandle(0)));
    assert_eq!(holder(mutex.lock(ThreadHandle(1))), Some(ThreadHandle(0)));
    assert_eq!(holder(mutex.lock(ThreadHandle(1))), Some(ThreadHandle(0)));
    assert_eq!(holder(mutex.lock(ThreadHandle(0))), Some(ThreadHandle(0)));
    assert_eq!(waiters(&mutex), vec![1, 0]);
    assert_eq!(mutex.nodes[1].thread, Some(ThreadHandle(1)));
    guard.unlock(&mut mutex);
    assert_eq!(waiters(&mutex), vec![0]);
}

#[test]
fn destroying_a_mutex_with_waiters_is_reported() {
    let mut mutex = Mutex::new(7u8);
    let _guard = acquired(mutex.lock(ThreadHandle(0)));
    assert_eq!(holder(mutex.lock(ThreadHandle(1))), Some(ThreadHandle(0)));
    assert_eq!(mutex.destroy(), (7, false));
}

#[test]
fn cond_signal_wakes_the_oldest_waiter() {
    let (mut kernel, t) = kernel_running(3);
    let mut mutex = Mutex::new(());
    let mut cond = Cond::new();
    for thread in [t[1], t[2], t[0]] {
        let guard = acquired(mutex.lock(thread));
        cond.waitForCond(&mut mutex, guard, thread);
        assert!(!mutex.mutexLock.status);
    }
    assert_eq!(waiting(&cond), vec![1, 2, 0]);
    let irq = disableInterrupts(&mut kernel);
    cond.signalCond(&mut kernel, &irq);
    assert_eq!(waiting(&cond), vec![2, 0]);
    assert!(cond.signalled(t[1]));
    assert!(!cond.signalled(t[2]));
    assert!(!cond.signalled(t[0]));
    cond.signalCond(&mut kernel, &irq);
    cond.signalCond(&mut kernel, &irq);
    cond.signalCond(&mut kernel, &irq);
    assert_eq!(waiting(&cond), Vec::<usize>::new());
    assert!(cond.signalled(t[2]) && cond.signalled(t[0]));
    enableInterrupts(&mut kernel, irq);
    assert!(cond.destroy());
}

#[test]
fn cond_broadcast_wakes_everyone() {
    let (mut kernel, t) = kernel_running(4);
    let mut mutex = Mutex::new(());
    let mut cond = Cond::new();
    for thread in [t[3], t[1], t[2]] {
        let guard = acquired(mutex.lock(thread));
        cond.waitForCond(&mut mutex, guard, thread);
        continueThread(&mut kernel, thread);
        let irq = disableInterrupts(&mut kernel);
        match cond.resumeWait(&mut kernel, &irq, &mut mutex, thread) {
            WaitProgress::Blocked(step) => assert!(step != BlockStep::Proceed),
            _ => panic!("not blocked"),
        }
        enableInterrupts(&mut kernel, irq);
    }
    assert_eq!(ring(&kernel), vec![0]);
    continueThread(&mut kernel, t[0]);
    let irq = disableInterrupts(&mut kernel);
    cond.broadcastCond(&mut kernel, &irq);
    enableInterrupts(&mut kernel, irq);
    assert_eq!(waiting(&cond), Vec::<usize>::new());
    for thread in [t[3], t[1], t[2]] {
        assert!(cond.signalled(thread));
        assert!(kernel.blocks[thread.0].scheduled);
    }
    assert!(!cond.signalled(t[0]));
    assert_eq!(ring(&kernel), vec![0, 2, 1, 3]);
    assert!(cond.destroy());
}

#[test]
fn destroying_a_cond_with_waiters_is_reported() {
    let mut mutex = Mutex::new(());
    let mut cond = Cond::new();
    let guard = acquired(mutex.lock(ThreadHandle(0)));
    cond.waitForCond(&mut mutex, guard, ThreadHandle(0));
    assert!(!cond.destroy());
}

#[test]
fn signal_race() {
    let (mut kernel, t) = kernel_running(2);
    let (a, b) = (t[0], t[1]);
    let mut mutex = Mutex::new(0u32);
    let mut cond = Cond::new();

    continueThread(&mut kernel, a);
    let guard = acquired(mutex.lock(a));
    cond.waitForCond(&mut mutex, guard, a);
    assert_eq!(waiting(&cond), vec![a.0]);
    assert!(!mutex.mutexLock.status);

    saveAndContinue(&mut kernel, 1000, false, b);
    let mut guard = acquired(mutex.lock(b));
    *guard.deref_mut(&mut mutex) = 1;
    let irq = disableInterrupts(&mut kernel);
    cond.signalCond(&mut kernel, &irq);
    enableInterrupts(&mut kernel, irq);
    guard.unlock(&mut mutex);
    assert!(cond.signalled(a));
    assert_eq!(waiting(&cond), Vec::<usize>::new());
    assert_eq!(ring(&kernel), vec![0, 1]);

    saveAndContinue(&mut kernel, 1000, false, a);
    let irq = disableInterrupts(&mut kernel);
    let progress = cond.resumeWait(&mut kernel, &irq, &mut mutex, a);
    enableInterrupts(&mut kernel, irq);
    let guard = match progress {
        WaitProgress::Relocked(guard) => guard,
        _ => panic!("the waiter stalled"),
    };
    assert!(kernel.blocks[a.0].scheduled);
    assert_eq!(ring(&kernel), vec![0, 1]);
    assert_eq!(*guard.deref(&mutex), 1);
    guard.unlock(&mut mutex);
    assert_eq!(mutex.destroy(), (1, true));
    assert!(cond.destroy());
}

#[test]
fn a_signalled_waiter_relocks_through_the_waitlist() {
    let (mut kernel, t) = kernel_running(2);
    let mut mutex = Mutex::new(());
    let mut cond = Cond::new();
    continueThread(&mut kernel, t[0]);
    let guard = acquired(mutex.lock(t[0]));
    cond.waitForCond(&mut mutex, guard, t[0]);
    continueThread(&mut kernel, t[1]);
    let guard = acquired(mutex.lock(t[1]));
    let irq = disableInterrupts(&mut kernel);
    cond.signalCond(&mut kernel, &irq);
    enableInterrupts(&mut kernel, irq);
    continueThread(&mut kernel, t[0]);
    let irq = disableInterrupts(&mut kernel);
    match cond.resumeWait(&mut kernel, &irq, &mut mutex, t[0]) {
        WaitProgress::Relocking(holder) => assert_eq!(holder, Some(t[1])),
        _ => panic!("the mutex is taken"),
    }
    enableInterrupts(&mut kernel, irq);
    assert_eq!(waiters(&mutex), vec![0]);
    guard.unlock(&mut mutex);
    let guard = acquired(mutex.lockRetry(t[0]));
    guard.unlock(&mut mutex);
}

#[test]
fn producer_consumer() {
    let (mut kernel, t) = kernel_running(2);
    let (producer, consumer) = (t[0], t[1]);
    let mut mutex = Mutex::new(Vec::<u32>::new());
    let mut cond = Cond::new();
    let mut observed = Vec::new();
    let mut produced = 0u32;
    let mut consumer_waits = false;
    let mut consumer_irq = None;
    continueThread(&mut kernel, consumer);

    while observed.len() < 100 {
        let current = kernel.current.unwrap();
        if current == consumer {
            let mut guard = if consumer_waits {
                let irq = match consumer_irq.take() {
                    Some(irq) => irq,
                    None => disableInterrupts(&mut kernel),
                };
                match cond.resumeWait(&mut kernel, &irq, &mut mutex, consumer) {
                    WaitProgress::Relocked(guard) => {
                        assert!(enableInterrupts(&mut kernel, irq));
                        consumer_waits = false;
                        guard
                    }
                    WaitProgress::Blocked(BlockStep::SwitchTo(next)) => {
                        assert_eq!(next, producer);
                        assert!(!kernel.blocks[consumer.0].scheduled);
                        consumer_irq = Some(irq);
                        saveAndContinue(&mut kernel, 1000, false, next);
                        continue;
                    }
                    _ => panic!("the consumer cannot go on"),
                }
            } else {
                acquired(mutex.lock(consumer))
            };
            if guard.deref(&mutex).is_empty() {
                cond.waitForCond(&mut mutex, guard, consumer);
                consumer_waits = true;
            } else {
                observed.push(guard.deref_mut(&mut mutex).remove(0));
                guard.unlock(&mut mutex);
            }
        } else {
            let mut guard = acquired(mutex.lock(producer));
            if produced < 100 {
                produced += 1;
                guard.deref_mut(&mut mutex).push(produced);
            }
            let irq = disableInterrupts(&mut kernel);
            cond.signalCond(&mut kernel, &irq);
            enableInterrupts(&mut kernel, irq);
            guard.unlock(&mut mutex);
            assert!(kernel.blocks[consumer.0].scheduled);
            saveAndContinue(&mut kernel, 1000, false, consumer);
        }
    }

    let expected: Vec<u32> = (1..=100).collect();
    assert_eq!(observed, expected);
    assert_eq!(produced, 100);
    assert!(consumer_irq.is_none());
    assert!(kernel.blocks[producer.0].scheduled);
    assert!(kernel.blocks[consumer.0].scheduled);
    assert_eq!(kernel.blocks[consumer.0].disabledInterruptsRefCount, 0);
    assert_eq!(kernel.blocks[producer.0].disabledInterruptsRefCount, 0);
    assert_eq!(waiters(&mutex), Vec::<usize>::new());
    assert_eq!(waiting(&cond), Vec::<usize>::new());
    assert!(cond.destroy());
    assert_eq!(mutex.destroy(), (Vec::new(), true));
}

#[test]
fn rwlock_admits_many_readers() {
    let mut lock = RWLock::new(3u32);
    let first = reading(lock.lockRead(ThreadHandle(0)));
    let second = reading(lock.lockRead(ThreadHandle(1)));
    assert_eq!(lock.status.mutexLock.data.readerCount, 2);
    assert_eq!(lock.status.mutexLock.data.mode, RWLockMode::Read);
    assert_eq!(*first.deref(&lock), 3);
    assert_eq!(*second.deref(&lock), 3);
    let mut kernel = Kernel::new();
    let irq = disableInterrupts(&mut kernel);
    first.unlock(&mut lock, &mut kernel, &irq);
    second.unlock(&mut lock, &mut kernel, &irq);
    enableInterrupts(&mut kernel, irq);
    assert_eq!(lock.status.mutexLock.data.readerCount, 0);
    assert_eq!(lock.destroy(), (3, true));
}

#[test]
fn rwlock_writer_is_alone() {
    let mut kernel = Kernel::new();
    let irq = disableInterrupts(&mut kernel);
    assert_eq!(kernel.noThreadRefCount, 1);
    let mut lock = RWLock::new(0u32);
    let mut writer = writing(lock.lockWrite(ThreadHandle(0)));
    assert_eq!(lock.status.mutexLock.data.mode, RWLockMode::Write);
    assert_eq!(lock.status.mutexLock.data.writerWaitlistSize, 0);
    *writer.deref_mut(&mut lock) = 9;
    assert_eq!(*writer.deref(&lock), 9);
    assert!(matches!(lock.lockRead(ThreadHandle(1)), Access::Waiting));
    assert!(matches!(lock.lockWrite(ThreadHandle(2)), Access::Waiting));
    assert_eq!(lock.status.mutexLock.data.writerWaitlistSize, 1);
    assert_eq!(lock.status.mutexLock.data.readerCount, 0);
    writer.unlock(&mut lock, &mut kernel, &irq);
    assert_eq!(lock.status.mutexLock.data.mode, RWLockMode::Read);
    assert!(lock.canWrite.signalled(ThreadHandle(2)));
    assert!(!lock.canRead.signalled(ThreadHandle(1)));
    let second = writing(lock.lockWriteRetry(&mut kernel, &irq, ThreadHandle(2)));
    second.unlock(&mut lock, &mut kernel, &irq);
    assert!(lock.canRead.signalled(ThreadHandle(1)));
    let reader = reading(lock.lockReadRetry(&mut kernel, &irq, ThreadHandle(1)));
    reader.unlock(&mut lock, &mut kernel, &irq);
    enableInterrupts(&mut kernel, irq);
    assert_eq!(lock.destroy(), (9, true));
}

#[test]
fn rwlock_downgrade_keeps_the_lock() {
    let mut lock = RWLock::new(());
    let writer = writing(lock.lockWrite(ThreadHandle(0)));
    let reader = writer.downgradeRWLock(&mut lock, Some(ThreadHandle(0)));
    assert_eq!(lock.status.mutexLock.data.mode, RWLockMode::Read);
    assert_eq!(lock.status.mutexLock.data.readerCount, 1);
    let other = reading(lock.lockRead(ThreadHandle(1)));
    assert!(matches!(lock.lockWrite(ThreadHandle(2)), Access::Waiting));
    let mut kernel = Kernel::new();
    let irq = disableInterrupts(&mut kernel);
    reader.unlock(&mut lock, &mut kernel, &irq);
    assert!(!lock.canWrite.signalled(ThreadHandle(2)));
    other.unlock(&mut lock, &mut kernel, &irq);
    assert!(lock.canWrite.signalled(ThreadHandle(2)));
    enableInterrupts(&mut kernel, irq);
}

#[test]
fn rw_fairness() {
    let (mut kernel, t) = kernel_running(10);
    let writer = t[5];
    let mut lock = RWLock::new(0u32);

    let mut early = Vec::new();
    for reader in 0..5 {
        early.push(reading(lock.lockRead(t[reader])));
    }
    assert_eq!(lock.status.mutexLock.data.readerCount, 5);

    assert!(matches!(lock.lockWrite(writer), Access::Waiting));
    assert_eq!(lock.status.mutexLock.data.writerWaitlistSize, 1);
    assert_eq!(waiting(&lock.canWrite), vec![5]);

    for late in 6..9 {
        assert!(matches!(lock.lockRead(t[late]), Access::Waiting));
    }
    assert_eq!(waiting(&lock.canRead), vec![6, 7, 8]);
    assert_eq!(lock.status.mutexLock.data.readerCount, 5);

    let mut guards = Vec::new();
    for blocked in [6usize, 7, 8, 5] {
        continueThread(&mut kernel, t[blocked]);
        let irq = disableInterrupts(&mut kernel);
        let stalls = if blocked == 5 {
            matches!(lock.lockWriteRetry(&mut kernel, &irq, writer), Access::Blocked(_))
        } else {
            matches!(lock.lockReadRetry(&mut kernel, &irq, t[blocked]), Access::Blocked(_))
        };
        assert!(stalls);
        assert!(!kernel.blocks[blocked].scheduled);
        guards.push((blocked, irq));
    }

    continueThread(&mut kernel, t[0]);
    let irq = disableInterrupts(&mut kernel);
    let last = early.pop().unwrap();
    for guard in early {
        guard.unlock(&mut lock, &mut kernel, &irq);
        assert!(!lock.canWrite.signalled(writer));
    }
    assert_eq!(lock.status.mutexLock.data.readerCount, 1);
    last.unlock(&mut lock, &mut kernel, &irq);
    enableInterrupts(&mut kernel, irq);
    assert_eq!(lock.status.mutexLock.data.readerCount, 0);
    assert!(lock.canWrite.signalled(writer));
    assert!(kernel.blocks[writer.0].scheduled);
    for late in 6..9 {
        assert!(!lock.canRead.signalled(t[late]));
        assert!(!kernel.blocks[late].scheduled);
    }

    continueThread(&mut kernel, writer);
    let (_, irq) = guards.pop().unwrap();
    let mut write = writing(lock.lockWriteRetry(&mut kernel, &irq, writer));
    assert_eq!(lock.status.mutexLock.data.mode, RWLockMode::Write);
    assert_eq!(lock.status.mutexLock.data.writerWaitlistSize, 0);
    *write.deref_mut(&mut lock) = 1;
    assert_eq!(waiting(&lock.canRead), vec![6, 7, 8]);
    write.unlock(&mut lock, &mut kernel, &irq);
    assert!(enableInterrupts(&mut kernel, irq));

    assert_eq!(waiting(&lock.canRead), Vec::<usize>::new());
    let mut late_guards = Vec::new();
    for (late, irq) in guards {
        assert!(lock.canRead.signalled(t[late]));
        assert!(kernel.blocks[late].scheduled);
        continueThread(&mut kernel, t[late]);
        let guard = reading(lock.lockReadRetry(&mut kernel, &irq, t[late]));
        assert_eq!(*guard.deref(&lock), 1);
        late_guards.push((guard, irq));
    }
    assert_eq!(lock.status.mutexLock.data.readerCount, 3);
    for (late, (guard, irq)) in (6..9).zip(late_guards) {
        continueThread(&mut kernel, t[late]);
        guard.unlock(&mut lock, &mut kernel, &irq);
        assert!(enableInterrupts(&mut kernel, irq));
    }
    assert_eq!(lock.status.mutexLock.data.readerCount, 0);
    assert_eq!(lock.destroy(), (1, true));
}
