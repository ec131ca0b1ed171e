//! A producer and a consumer over a condition variable.
//!
//! The laws of this module are about two threads that share a queue of
//! numbers under a mutex. The producer appends the numbers 1, 2, … up to a
//! goal and signals after each of them. The consumer takes the numbers off
//! the front and waits while there is none. A step of either thread is one
//! critical section under the mutex, one round of blocking, or a switch of
//! the thread that runs; what a step does to the condition variable and to
//! the run queue is what the functions of `cond` and of the scheduler say.

use crate::sync::cond::{lemma_signal_reaches_waiter, signalled_one, Cond};
use crate::sync::mutex::registered;
use crate::thread::scheduler::{blocked, lemma_blocked_off_ring, BlockStep};
use crate::thread::{Kernel, ThreadHandle};
use vstd::prelude::*;

verus! {

/// What the two threads share, and how far each of them has come.
pub struct Exchange {
    /// The numbers in the queue under the mutex, oldest first.
    pub items: Seq<int>,
    /// How many numbers the producer has appended.
    pub produced: nat,
    /// The numbers that the consumer has taken, in the order in which it
    /// took them.
    pub taken: Seq<int>,
    /// The condition variable on which the consumer waits.
    pub cond: Cond,
    /// The threads and the run queue.
    pub kernel: Kernel,
}

/// The numbers 1, 2, …, `n`.
pub open spec fn numbers(n: nat) -> Seq<int> {
    Seq::new(n, |k: int| k + 1)
}

impl Exchange {
    /// The thread is registered with the condition variable and has not
    /// been signalled.
    pub open spec fn waits(self, thread: ThreadHandle) -> bool {
        self.cond.waiting().contains(thread.0)
    }

    /// The thread is on the run queue.
    pub open spec fn runnable(self, thread: ThreadHandle) -> bool {
        self.kernel.blocks[thread.0 as int].scheduled
    }

    /// The consumer can take its next step: it does not wait and it is on
    /// the run queue.
    pub open spec fn consumer_ready(self, consumer: ThreadHandle) -> bool {
        !self.waits(consumer) && self.runnable(consumer)
    }

    /// The producer can take its next step: it has numbers left to append
    /// and it is on the run queue.
    pub open spec fn producer_ready(self, producer: ThreadHandle, goal: nat) -> bool {
        self.produced < goal && self.runnable(producer)
    }
}

/// The producer appends the next number and signals, as `signalCond` does.
pub open spec fn produces(pre: Exchange, goal: nat, post: Exchange) -> bool {
    &&& pre.produced < goal
    &&& post.produced == pre.produced + 1
    &&& post.items == pre.items.push(post.produced as int)
    &&& post.taken == pre.taken
    &&& post.cond.wf()
    &&& post.kernel.wf()
    &&& signalled_one(&pre.cond, &pre.kernel, &post.cond, &post.kernel)
}

/// The consumer, which does not wait, takes the number at the front of the
/// queue.
pub open spec fn takes(pre: Exchange, consumer: ThreadHandle, goal: nat, post: Exchange) -> bool {
    &&& pre.taken.len() < goal
    &&& pre.consumer_ready(consumer)
    &&& pre.items.len() > 0
    &&& post.taken == pre.taken.push(pre.items[0])
    &&& post.items == pre.items.skip(1)
    &&& post.produced == pre.produced
    &&& post.cond == pre.cond
    &&& post.kernel == pre.kernel
}

/// The consumer finds the queue empty and registers with the condition
/// variable, as `waitForCond` does.
pub open spec fn starts_to_wait(pre: Exchange, consumer: ThreadHandle, goal: nat, post: Exchange)
    -> bool {
    &&& pre.taken.len() < goal
    &&& pre.consumer_ready(consumer)
    &&& pre.items.len() == 0
    &&& post.cond.wf()
    &&& post.cond.waiting() == registered(pre.cond.waiting(), consumer)
    &&& !post.cond.is_signalled(consumer)
    &&& post.items == pre.items
    &&& post.produced == pre.produced
    &&& post.taken == pre.taken
    &&& post.kernel == pre.kernel
}

/// The consumer, which runs and waits without a signal, is taken off the
/// run queue, as `blockUntil` does.
pub open spec fn blocks(pre: Exchange, consumer: ThreadHandle, post: Exchange) -> bool {
    &&& pre.kernel.current == Some(consumer)
    &&& pre.waits(consumer)
    &&& !pre.cond.is_signalled(consumer)
    &&& post.kernel.wf()
    &&& exists|step: BlockStep| #[trigger] blocked(&pre.kernel, &post.kernel, step)
    &&& post.items == pre.items
    &&& post.produced == pre.produced
    &&& post.taken == pre.taken
    &&& post.cond == pre.cond
}

/// Another thread is made the thread that runs, as `continueThread` does.
pub open spec fn switches(pre: Exchange, post: Exchange) -> bool {
    &&& post.kernel.wf()
    &&& post.kernel.current matches Some(next) && pre.kernel.knows(next)
    &&& post.kernel.blocks == pre.kernel.blocks
    &&& post.kernel.sched == pre.kernel.sched
    &&& post.items == pre.items
    &&& post.produced == pre.produced
    &&& post.taken == pre.taken
    &&& post.cond == pre.cond
}

/// One step of the exchange.
pub open spec fn steps(pre: Exchange, consumer: ThreadHandle, goal: nat, post: Exchange) -> bool {
    ||| produces(pre, goal, post)
    ||| takes(pre, consumer, goal, post)
    ||| starts_to_wait(pre, consumer, goal, post)
    ||| blocks(pre, consumer, post)
    ||| switches(pre, post)
}

/// The exchange is in order. What the consumer has taken and what is still
/// in the queue are, together, the numbers appended so far, in their order.
/// Nobody but the consumer waits, and it waits only while the queue is
/// empty and it has numbers left to take. A consumer that does not wait is
/// on the run queue, and so is the producer.
pub open spec fn in_order(
    r: Exchange,
    producer: ThreadHandle,
    consumer: ThreadHandle,
    goal: nat,
) -> bool {
    &&& r.cond.wf()
    &&& r.kernel.wf()
    &&& r.kernel.knows(producer)
    &&& r.kernel.knows(consumer)
    &&& producer != consumer
    &&& r.produced <= goal
    &&& r.taken + r.items == numbers(r.produced)
    &&& forall|i: int| 0 <= i < r.cond.waiting().len() ==> r.cond.waiting()[i] == consumer.0
    &&& r.waits(consumer) ==> r.items.len() == 0 && r.taken.len() < goal
    &&& !r.waits(consumer) ==> r.runnable(consumer)
    &&& r.runnable(producer)
}

/// The exchange starts in order: nothing has been appended or taken,
/// nobody waits, and both threads are on the run queue.
pub proof fn lemma_starts_in_order(
    r: Exchange,
    producer: ThreadHandle,
    consumer: ThreadHandle,
    goal: nat,
)
    requires
        r.cond.wf(),
        r.kernel.wf(),
        r.kernel.knows(producer),
        r.kernel.knows(consumer),
        producer != consumer,
        r.runnable(producer),
        r.runnable(consumer),
        r.cond.waiting().len() == 0,
        r.items.len() == 0,
        r.taken.len() == 0,
        r.produced == 0,
    ensures
        in_order(r, producer, consumer, goal),
{
    assert(r.taken + r.items =~= numbers(0));
}

/// Every step keeps the exchange in order.
pub proof fn lemma_step_keeps_order(
    pre: Exchange,
    producer: ThreadHandle,
    consumer: ThreadHandle,
    goal: nat,
    post: Exchange,
)
    requires
        in_order(pre, producer, consumer, goal),
        steps(pre, consumer, goal, post),
    ensures
        in_order(post, producer, consumer, goal),
{
    let waiting = pre.cond.waiting();
    if !pre.waits(consumer) && waiting.len() > 0 {
        assert(waiting[0] == consumer.0);
        assert(waiting.contains(consumer.0));
    }
    if produces(pre, goal, post) {
        let before = pre.taken + pre.items;
        assert(before.len() == numbers(pre.produced).len());
        assert(post.taken + post.items =~= before.push(post.produced as int));
        assert(numbers(post.produced) =~= numbers(pre.produced).push(post.produced as int));
        if waiting.len() > 0 {
            lemma_signal_reaches_waiter(
                &pre.cond,
                &pre.kernel,
                consumer,
                &post.cond,
                &post.kernel,
            );
            assert forall|i: int| 0 <= i < post.cond.waiting().len()
                implies post.cond.waiting()[i] == consumer.0 by {
                assert(post.cond.waiting()[i] == waiting[i + 1]);
            }
        }
    } else if takes(pre, consumer, goal, post) {
        assert(post.taken + post.items =~= pre.taken + pre.items);
    } else if starts_to_wait(pre, consumer, goal, post) {
        assert(post.cond.waiting() == waiting.push(consumer.0));
        assert(post.cond.waiting().last() == consumer.0);
    } else if blocks(pre, consumer, post) {
        let step = choose|step: BlockStep| #[trigger] blocked(&pre.kernel, &post.kernel, step);
        lemma_blocked_off_ring(&pre.kernel, &post.kernel, step);
    } else {
    }
}

/// A run of the exchange stays in order from its start on.
pub proof fn lemma_run_keeps_order(
    run: Seq<Exchange>,
    producer: ThreadHandle,
    consumer: ThreadHandle,
    goal: nat,
    k: int,
)
    requires
        0 <= k < run.len(),
        in_order(run[0], producer, consumer, goal),
        forall|i: int|
            #![trigger run[i]]
            0 <= i < run.len() - 1 ==> steps(run[i], consumer, goal, run[i + 1]),
    ensures
        in_order(run[k], producer, consumer, goal),
    decreases k,
{
    if k > 0 {
        lemma_run_keeps_order(run, producer, consumer, goal, k - 1);
        assert(steps(run[k - 1], consumer, goal, run[k]));
        lemma_step_keeps_order(run[k - 1], producer, consumer, goal, run[k]);
    }
}

/// The exchange never stalls: as long as the consumer has numbers left to
/// take, the consumer or the producer can take its next step. No signal is
/// lost on the way: a consumer that waits has found the queue empty, and
/// the producer, who signals after every number, still has one to append.
pub proof fn lemma_never_stalls(
    r: Exchange,
    producer: ThreadHandle,
    consumer: ThreadHandle,
    goal: nat,
)
    requires
        in_order(r, producer, consumer, goal),
        r.taken.len() < goal,
    ensures
        r.consumer_ready(consumer) || r.producer_ready(producer, goal),
        r.consumer_ready(consumer) && r.items.len() == 0 ==> r.producer_ready(producer, goal),
{
    assert((r.taken + r.items).len() == numbers(r.produced).len());
}

/// What the consumer has seen once it has taken as many numbers as the
/// producer was to append: the numbers 1, 2, … up to the goal, in this
/// order. The queue is empty then, and nobody waits on the condition
/// variable.
pub proof fn lemma_consumer_sees_the_numbers_in_order(
    r: Exchange,
    producer: ThreadHandle,
    consumer: ThreadHandle,
    goal: nat,
)
    requires
        in_order(r, producer, consumer, goal),
        r.taken.len() == goal,
    ensures
        r.taken == numbers(goal),
        r.items.len() == 0,
        r.produced == goal,
        r.cond.waiting().len() == 0,
{
    assert((r.taken + r.items).len() == numbers(r.produced).len());
    assert(r.taken =~= r.taken + r.items);
    if r.cond.waiting().len() > 0 {
        assert(r.cond.waiting()[0] == consumer.0);
        assert(r.cond.waiting().contains(consumer.0));
    }
}

} // verus!
