use kernel_core::registers::{Registers, SuspendedState};
use kernel_core::sync::disable_interrupts::{disableInterrupts, enableInterrupts};
use kernel_core::thread::context_switch::{
    continueThread, getCurrentTask, getCurrentThread, saveAndContinue, saveContinuationTo,
    yieldThread, yieldThreadTo, yieldThreadWithoutInterrupts,
};
use kernel_core::thread::manager::{
    activateThread, contains_thread, getActiveThreadByTid, retireThread, setSuspendedState,
};
use kernel_core::thread::scheduler::{
    blockUntil, descheduleThread, getNextThread, getScheduledThreadByTid, make_runnable,
    scheduleThread, wakeThread, BlockStep,
};
use kernel_core::thread::thread::INITIAL_THREAD_STATE_SIZE;
use kernel_core::thread::thread_collection::ThreadCollection;
use kernel_core::thread::thread_internal::{ThreadBlock, KERNEL_STACK_SIZE, TID_NOT_A_THREAD};
use kernel_core::thread::{Kernel, ThreadHandle};
use kernel_core::variable_queue::Link;

fn kernel_with(threads: usize) -> (Kernel, Vec<ThreadHandle>) {
    let mut kernel = Kernel::new();
    let mut handles = Vec::new();
    for i in 0..threads {
        let mut block = ThreadBlock::new();
        block.tid = 100 + i as i32;
        handles.push(kernel.adopt(block));
    }
    (kernel, handles)
}

fn ring(kernel: &Kernel) -> Vec<usize> {
    kernel.sched.lock.data.queue.iter(&kernel.scheduleLinks)
}

fn cursor(kernel: &Kernel) -> Option<ThreadHandle> {
    kernel.sched.lock.data.next
}

#[test]
fn new_thread_block_is_blank() {
    let block = ThreadBlock::new();
    assert_eq!(block.tid(), 0);
    assert_eq!(block.task(), None);
    assert_eq!(block.kernelStackOffset, KERNEL_STACK_SIZE);
    assert!(!block.scheduled);
    assert!(!block.free);
    assert!(!block.userDescheduled);
    assert!(!block.inKernelDirectory);
    assert!(block.suspendedUserState.is_none());
    assert!(block.swexnHandler.is_none() && block.esp3.is_none() && block.exnUreg.is_none());
    assert_eq!(block.refCount, 0);
    assert_eq!(block.disabledInterruptsRefCount, 0);
    assert_eq!(TID_NOT_A_THREAD, -1);
}

#[test]
fn load_prepares_the_initial_frame() {
    let mut block = ThreadBlock::new();
    block.tid = 9;
    let mut state = SuspendedState::default();
    state.eip = 0x0100_0040;
    state.reg = Registers { eax: 7, ..Registers::default() };
    block.load(Some(3), state);
    assert_eq!(block.task(), Some(3));
    assert_eq!(block.kernelStackOffset, KERNEL_STACK_SIZE - INITIAL_THREAD_STATE_SIZE);
    assert_eq!(block.kernelStackOffset, 1936);
    let saved = block.suspendedUserState.unwrap();
    assert_eq!(saved.eip, 0x0100_0040);
    assert_eq!(saved.reg.eax, 7);
    assert_eq!(block.tid(), 9);
}

#[test]
fn handles_are_equal_when_they_name_the_same_block() {
    let a = ThreadHandle::from_raw_parts(4);
    let b = ThreadHandle::from_raw_parts(4);
    let c = ThreadHandle::from_raw_parts(5);
    assert_eq!(a, b);
    assert_ne!(a, c);
    assert_eq!(a.to_raw_parts(), 4);
}

#[test]
fn handles_are_counted_on_the_block() {
    let (mut kernel, threads) = kernel_with(2);
    let first = kernel.handle(0);
    let second = kernel.handle(0);
    assert_eq!(first, threads[0]);
    assert_eq!(kernel.blocks[0].refCount, 2);
    assert_eq!(kernel.blocks[1].refCount, 0);
    assert_eq!(first.deref_pin(&kernel).tid(), 100);
    first.release(&mut kernel);
    assert_eq!(kernel.blocks[0].refCount, 1);
    second.release(&mut kernel);
    threads[0].release(&mut kernel);
    assert_eq!(kernel.blocks[0].refCount, 0);
}

#[test]
fn the_run_queue_counts_as_one_reference() {
    let (mut kernel, t) = kernel_with(2);
    let guard = disableInterrupts(&mut kernel);
    let held = kernel.handle(0);
    assert_eq!(kernel.blocks[0].refCount, 1);
    scheduleThread(&mut kernel, &guard, t[0]).unwrap();
    assert_eq!(kernel.blocks[0].refCount, 2);
    assert_eq!(scheduleThread(&mut kernel, &guard, t[0]), Err(()));
    assert_eq!(kernel.blocks[0].refCount, 2);
    held.release(&mut kernel);
    assert_eq!(kernel.blocks[0].refCount, 1);
    t[0].release(&mut kernel);
    assert_eq!(kernel.blocks[0].refCount, 1);
    descheduleThread(&mut kernel, &guard, t[0]).unwrap();
    assert_eq!(kernel.blocks[0].refCount, 0);
    assert_eq!(descheduleThread(&mut kernel, &guard, t[0]), Err(()));
    assert_eq!(kernel.blocks[0].refCount, 0);
    enableInterrupts(&mut kernel, guard);
}

#[test]
fn the_count_of_handles_stops_below_its_largest_value() {
    let (mut kernel, t) = kernel_with(1);
    kernel.blocks[0].refCount = u32::MAX - 2;
    let first = kernel.handle(0);
    assert_eq!(kernel.blocks[0].refCount, u32::MAX - 1);
    let second = kernel.handle(0);
    assert_eq!(kernel.blocks[0].refCount, u32::MAX - 1);
    let guard = disableInterrupts(&mut kernel);
    scheduleThread(&mut kernel, &guard, t[0]).unwrap();
    assert_eq!(kernel.blocks[0].refCount, u32::MAX);
    enableInterrupts(&mut kernel, guard);
    first.release(&mut kernel);
    second.release(&mut kernel);
    assert_eq!(kernel.blocks[0].refCount, u32::MAX - 2);
}

#[test]
fn lookups_hand_out_counted_handles() {
    let (mut kernel, t) = kernel_with(2);
    activateThread(&mut kernel, t[1]);
    let found = getActiveThreadByTid(&mut kernel, 101).unwrap();
    assert_eq!(found, t[1]);
    assert_eq!(kernel.blocks[1].refCount, 1);
    assert_eq!(getActiveThreadByTid(&mut kernel, 100), None);
    assert_eq!(kernel.blocks[0].refCount, 0);
    let guard = disableInterrupts(&mut kernel);
    scheduleThread(&mut kernel, &guard, t[1]).unwrap();
    let again = getScheduledThreadByTid(&mut kernel, &guard, 101).unwrap();
    assert_eq!(again, t[1]);
    assert_eq!(kernel.blocks[1].refCount, 3);
    again.release(&mut kernel);
    found.release(&mut kernel);
    assert_eq!(kernel.blocks[1].refCount, 1);
    assert_eq!(make_runnable(&mut kernel, &guard, 101), -1);
    descheduleThread(&mut kernel, &guard, t[1]).unwrap();
    assert_eq!(make_runnable(&mut kernel, &guard, 101), 0);
    assert_eq!(kernel.blocks[1].refCount, 1);
    enableInterrupts(&mut kernel, guard);
}

#[test]
fn adopt_names_blocks_by_index() {
    let (kernel, threads) = kernel_with(3);
    assert_eq!(threads, vec![ThreadHandle(0), ThreadHandle(1), ThreadHandle(2)]);
    assert_eq!(kernel.blocks.len(), 3);
    assert_eq!(kernel.links.len(), 3);
    assert_eq!(kernel.scheduleLinks.len(), 3);
    assert_eq!(kernel.taskLinks.len(), 3);
    assert_eq!(getCurrentThread(&kernel), None);
    assert_eq!(ring(&kernel), Vec::<usize>::new());
}

#[test]
fn adopt_clears_the_scheduled_mark() {
    let mut kernel = Kernel::new();
    let mut block = ThreadBlock::new();
    block.scheduled = true;
    let thread = kernel.adopt(block);
    assert!(!kernel.blocks[thread.0].scheduled);
    let guard = disableInterrupts(&mut kernel);
    assert_eq!(scheduleThread(&mut kernel, &guard, thread), Ok(()));
    enableInterrupts(&mut kernel, guard);
}

#[test]
fn interrupt_guards_nest() {
    let (mut kernel, threads) = kernel_with(1);
    let outer = disableInterrupts(&mut kernel);
    let inner = disableInterrupts(&mut kernel);
    assert_eq!(kernel.noThreadRefCount, 2);
    assert!(!enableInterrupts(&mut kernel, inner));
    assert!(enableInterrupts(&mut kernel, outer));
    assert_eq!(kernel.noThreadRefCount, 0);
    continueThread(&mut kernel, threads[0]);
    let outer = disableInterrupts(&mut kernel);
    let inner = disableInterrupts(&mut kernel);
    assert_eq!(kernel.blocks[0].disabledInterruptsRefCount, 2);
    assert_eq!(kernel.noThreadRefCount, 0);
    assert!(!enableInterrupts(&mut kernel, inner));
    assert!(enableInterrupts(&mut kernel, outer));
    assert_eq!(kernel.blocks[0].disabledInterruptsRefCount, 0);
}

#[test]
fn schedule_thread_builds_the_ring() {
    let (mut kernel, t) = kernel_with(4);
    let guard = disableInterrupts(&mut kernel);
    assert_eq!(cursor(&kernel), None);
    assert_eq!(scheduleThread(&mut kernel, &guard, t[2]), Ok(()));
    assert_eq!(ring(&kernel), vec![2]);
    assert_eq!(cursor(&kernel), Some(t[2]));
    assert_eq!(scheduleThread(&mut kernel, &guard, t[0]), Ok(()));
    assert_eq!(ring(&kernel), vec![2, 0]);
    assert_eq!(scheduleThread(&mut kernel, &guard, t[3]), Ok(()));
    assert_eq!(ring(&kernel), vec![2, 3, 0]);
    assert_eq!(cursor(&kernel), Some(t[2]));
    assert!(kernel.blocks[2].scheduled && kernel.blocks[0].scheduled && kernel.blocks[3].scheduled);
    assert!(!kernel.blocks[1].scheduled);
    enableInterrupts(&mut kernel, guard);
}

#[test]
fn schedule_thread_fails_for_a_scheduled_thread() {
    let (mut kernel, t) = kernel_with(2);
    let guard = disableInterrupts(&mut kernel);
    assert_eq!(scheduleThread(&mut kernel, &guard, t[0]), Ok(()));
    assert_eq!(scheduleThread(&mut kernel, &guard, t[0]), Err(()));
    assert_eq!(ring(&kernel), vec![0]);
    enableInterrupts(&mut kernel, guard);
}

#[test]
fn get_next_thread_sweeps_the_ring() {
    let (mut kernel, t) = kernel_with(3);
    let guard = disableInterrupts(&mut kernel);
    assert_eq!(getNextThread(&mut kernel, &guard), None);
    assert_eq!(cursor(&kernel), None);
    for thread in [t[0], t[1], t[2]] {
        scheduleThread(&mut kernel, &guard, thread).unwrap();
    }
    assert_eq!(ring(&kernel), vec![0, 2, 1]);
    let mut order = Vec::new();
    for _ in 0..7 {
        order.push(getNextThread(&mut kernel, &guard).unwrap().0);
    }
    assert_eq!(order, vec![0, 2, 1, 0, 2, 1, 0]);
    assert_eq!(cursor(&kernel), Some(t[2]));
    assert_eq!(ring(&kernel), vec![0, 2, 1]);
    enableInterrupts(&mut kernel, guard);
}

#[test]
fn deschedule_thread_moves_the_cursor_on() {
    let (mut kernel, t) = kernel_with(3);
    let guard = disableInterrupts(&mut kernel);
    for thread in [t[0], t[1], t[2]] {
        scheduleThread(&mut kernel, &guard, thread).unwrap();
    }
    assert_eq!(ring(&kernel), vec![0, 2, 1]);
    assert_eq!(descheduleThread(&mut kernel, &guard, t[2]), Ok(()));
    assert_eq!(ring(&kernel), vec![0, 1]);
    assert_eq!(cursor(&kernel), Some(t[0]));
    assert!(!kernel.blocks[2].scheduled);
    assert_eq!(descheduleThread(&mut kernel, &guard, t[0]), Ok(()));
    assert_eq!(ring(&kernel), vec![1]);
    assert_eq!(cursor(&kernel), Some(t[1]));
    assert_eq!(descheduleThread(&mut kernel, &guard, t[0]), Err(()));
    assert_eq!(descheduleThread(&mut kernel, &guard, t[1]), Ok(()));
    assert_eq!(ring(&kernel), Vec::<usize>::new());
    assert_eq!(cursor(&kernel), None);
    enableInterrupts(&mut kernel, guard);
}

#[test]
fn deschedule_of_the_last_thread_wraps_the_cursor() {
    let (mut kernel, t) = kernel_with(3);
    let guard = disableInterrupts(&mut kernel);
    for thread in [t[0], t[1], t[2]] {
        scheduleThread(&mut kernel, &guard, thread).unwrap();
    }
    getNextThread(&mut kernel, &guard);
    getNextThread(&mut kernel, &guard);
    assert_eq!(cursor(&kernel), Some(t[1]));
    assert_eq!(descheduleThread(&mut kernel, &guard, t[1]), Ok(()));
    assert_eq!(ring(&kernel), vec![0, 2]);
    assert_eq!(cursor(&kernel), Some(t[0]));
    enableInterrupts(&mut kernel, guard);
}

#[test]
fn scheduled_threads_are_found_by_tid() {
    let (mut kernel, t) = kernel_with(3);
    kernel.blocks[2].tid = 100;
    let guard = disableInterrupts(&mut kernel);
    assert_eq!(getScheduledThreadByTid(&mut kernel, &guard, 100), None);
    scheduleThread(&mut kernel, &guard, t[2]).unwrap();
    scheduleThread(&mut kernel, &guard, t[0]).unwrap();
    assert_eq!(getScheduledThreadByTid(&mut kernel, &guard, 100), Some(t[2]));
    assert_eq!(getScheduledThreadByTid(&mut kernel, &guard, 101), None);
    descheduleThread(&mut kernel, &guard, t[2]).unwrap();
    assert_eq!(getScheduledThreadByTid(&mut kernel, &guard, 100), Some(t[0]));
    enableInterrupts(&mut kernel, guard);
}

#[test]
fn self_yield() {
    let (mut kernel, t) = kernel_with(1);
    let guard = disableInterrupts(&mut kernel);
    scheduleThread(&mut kernel, &guard, t[0]).unwrap();
    enableInterrupts(&mut kernel, guard);
    continueThread(&mut kernel, t[0]);
    let offset = kernel.blocks[0].kernelStackOffset;

    let switch = yieldThread(&mut kernel, None).unwrap();
    assert_eq!(switch.target, t[0]);
    assert_eq!(kernel.blocks[0].disabledInterruptsRefCount, 1);
    let resume = saveAndContinue(&mut kernel, offset, false, switch.target);
    assert_eq!(resume, offset);
    assert!(enableInterrupts(&mut kernel, switch.guard));

    assert_eq!(getCurrentThread(&kernel), Some(t[0]));
    assert_eq!(ring(&kernel), vec![0]);
    assert_eq!(cursor(&kernel), Some(t[0]));
    assert!(kernel.blocks[0].scheduled);
    assert_eq!(kernel.blocks[0].disabledInterruptsRefCount, 0);
    assert_eq!(kernel.blocks[0].kernelStackOffset, offset);
}

#[test]
fn yield_to_a_thread_needs_it_scheduled() {
    let (mut kernel, t) = kernel_with(2);
    let guard = disableInterrupts(&mut kernel);
    scheduleThread(&mut kernel, &guard, t[0]).unwrap();
    assert_eq!(yieldThreadTo(&kernel, &guard, t[0]), Ok(t[0]));
    assert_eq!(yieldThreadTo(&kernel, &guard, t[1]), Err(()));
    assert_eq!(yieldThreadWithoutInterrupts(&mut kernel, &guard, Some(t[1])), Err(()));
    assert_eq!(yieldThreadWithoutInterrupts(&mut kernel, &guard, Some(t[0])), Ok(t[0]));
    assert_eq!(yieldThreadWithoutInterrupts(&mut kernel, &guard, None), Ok(t[0]));
    enableInterrupts(&mut kernel, guard);
    assert!(yieldThread(&mut kernel, Some(t[1])).is_err());
    assert_eq!(kernel.noThreadRefCount, 0);
}

#[test]
fn yield_fails_on_an_empty_ring() {
    let (mut kernel, _t) = kernel_with(1);
    assert!(yieldThread(&mut kernel, None).is_err());
    assert_eq!(kernel.noThreadRefCount, 0);
}

#[test]
fn switching_saves_the_continuation_of_the_old_thread() {
    let (mut kernel, t) = kernel_with(2);
    kernel.blocks[1].kernelStackOffset = 1500;
    continueThread(&mut kernel, t[0]);
    let resume = saveAndContinue(&mut kernel, 1800, true, t[1]);
    assert_eq!(resume, 1500);
    assert_eq!(getCurrentThread(&kernel), Some(t[1]));
    assert_eq!(kernel.blocks[0].kernelStackOffset, 1800);
    assert!(kernel.blocks[0].inKernelDirectory);
    assert_eq!(continueThread(&mut kernel, t[0]), 1800);
    let mut block = ThreadBlock::new();
    saveContinuationTo(&mut block, 77, true);
    assert_eq!(block.kernelStackOffset, 77);
    assert!(block.inKernelDirectory);
}

#[test]
fn current_task_is_that_of_the_current_thread() {
    let (mut kernel, t) = kernel_with(2);
    kernel.blocks[1].task = Some(42);
    assert_eq!(getCurrentTask(&kernel), None);
    continueThread(&mut kernel, t[0]);
    assert_eq!(getCurrentTask(&kernel), None);
    continueThread(&mut kernel, t[1]);
    assert_eq!(getCurrentTask(&kernel), Some(42));
}

#[test]
fn block_until_proceeds_when_the_condition_holds() {
    let (mut kernel, t) = kernel_with(2);
    let guard = disableInterrupts(&mut kernel);
    scheduleThread(&mut kernel, &guard, t[0]).unwrap();
    scheduleThread(&mut kernel, &guard, t[1]).unwrap();
    assert_eq!(blockUntil(&mut kernel, &guard, false), BlockStep::Proceed);
    enableInterrupts(&mut kernel, guard);
    continueThread(&mut kernel, t[0]);
    let guard = disableInterrupts(&mut kernel);
    assert_eq!(blockUntil(&mut kernel, &guard, true), BlockStep::Proceed);
    assert_eq!(ring(&kernel), vec![0, 1]);
    enableInterrupts(&mut kernel, guard);
}

#[test]
fn block_until_takes_the_thread_off_the_ring() {
    let (mut kernel, t) = kernel_with(2);
    let guard = disableInterrupts(&mut kernel);
    scheduleThread(&mut kernel, &guard, t[0]).unwrap();
    scheduleThread(&mut kernel, &guard, t[1]).unwrap();
    enableInterrupts(&mut kernel, guard);
    continueThread(&mut kernel, t[0]);
    let guard = disableInterrupts(&mut kernel);
    assert_eq!(blockUntil(&mut kernel, &guard, false), BlockStep::SwitchTo(t[1]));
    assert_eq!(ring(&kernel), vec![1]);
    assert!(!kernel.blocks[0].scheduled);
    saveAndContinue(&mut kernel, 1000, false, t[1]);
    let second = disableInterrupts(&mut kernel);
    assert_eq!(blockUntil(&mut kernel, &second, false), BlockStep::Idle);
    assert_eq!(ring(&kernel), Vec::<usize>::new());
    wakeThread(&mut kernel, &second, t[0]);
    assert_eq!(ring(&kernel), vec![0]);
    assert!(kernel.blocks[0].scheduled);
    wakeThread(&mut kernel, &second, t[0]);
    wakeThread(&mut kernel, &second, ThreadHandle(99));
    assert_eq!(ring(&kernel), vec![0]);
    enableInterrupts(&mut kernel, second);
    continueThread(&mut kernel, t[0]);
    enableInterrupts(&mut kernel, guard);
}

#[test]
fn collections_keep_insertion_order() {
    let mut collection = ThreadCollection::new();
    let mut links = vec![Link::new(), Link::new(), Link::new()];
    assert_eq!(collection.insertThread(&mut links, ThreadHandle(1)), ThreadHandle(1));
    collection.insertThread(&mut links, ThreadHandle(0));
    collection.insertThread(&mut links, ThreadHandle(1));
    assert_eq!(collection.queue.iter(&links), vec![1, 0]);
    assert_eq!(collection.removeThread(&mut links, ThreadHandle(1)), ThreadHandle(1));
    assert_eq!(collection.queue.iter(&links), vec![0]);
}

#[test]
fn active_threads_are_found_by_tid() {
    let (mut kernel, t) = kernel_with(3);
    assert_eq!(getActiveThreadByTid(&mut kernel, 101), None);
    activateThread(&mut kernel, t[1]);
    activateThread(&mut kernel, t[2]);
    activateThread(&mut kernel, t[1]);
    assert_eq!(kernel.activeColl.queue.iter(&kernel.links), vec![1, 2]);
    assert_eq!(getActiveThreadByTid(&mut kernel, 101), Some(t[1]));
    assert_eq!(getActiveThreadByTid(&mut kernel, 100), None);
    assert!(contains_thread(&kernel, t[2]));
    assert!(!contains_thread(&kernel, t[0]));
    retireThread(&mut kernel, t[1]);
    retireThread(&mut kernel, t[0]);
    assert_eq!(kernel.activeColl.queue.iter(&kernel.links), vec![2]);
    assert_eq!(getActiveThreadByTid(&mut kernel, 101), None);
    assert_eq!(kernel.freeColl.queue.iter(&kernel.links), Vec::<usize>::new());
}

#[test]
fn a_thread_in_the_free_collection_is_not_made_active() {
    let (mut kernel, t) = kernel_with(2);
    kernel.freeColl.insertThread(&mut kernel.links, t[0]);
    activateThread(&mut kernel, t[0]);
    assert_eq!(kernel.activeColl.queue.iter(&kernel.links), Vec::<usize>::new());
    assert_eq!(kernel.freeColl.queue.iter(&kernel.links), vec![0]);
    retireThread(&mut kernel, t[0]);
    assert_eq!(kernel.freeColl.queue.iter(&kernel.links), vec![0]);
}

#[test]
fn make_runnable_schedules_an_active_thread() {
    let (mut kernel, t) = kernel_with(2);
    activateThread(&mut kernel, t[0]);
    let guard = disableInterrupts(&mut kernel);
    assert_eq!(make_runnable(&mut kernel, &guard, -5), -1);
    assert_eq!(make_runnable(&mut kernel, &guard, 101), -1);
    assert_eq!(make_runnable(&mut kernel, &guard, 100), 0);
    assert!(kernel.blocks[0].scheduled);
    assert_eq!(ring(&kernel), vec![0]);
    assert_eq!(make_runnable(&mut kernel, &guard, 100), -1);
    enableInterrupts(&mut kernel, guard);
}

#[test]
fn suspended_state_is_kept_on_the_current_thread() {
    let (mut kernel, t) = kernel_with(1);
    let mut state = SuspendedState::default();
    state.esp = 0xbfff_0000;
    setSuspendedState(&mut kernel, state);
    assert!(kernel.blocks[0].suspendedUserState.is_none());
    continueThread(&mut kernel, t[0]);
    setSuspendedState(&mut kernel, state);
    assert_eq!(kernel.blocks[0].suspendedUserState.unwrap().esp, 0xbfff_0000);
}
