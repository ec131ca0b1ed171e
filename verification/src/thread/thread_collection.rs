//! Collections of thread control blocks.
//!
//! A collection threads its blocks through their general-purpose link
//! slots. Whoever uses a collection of the kernel proper holds its
//! reader/writer lock for the time of the call.

#![allow(non_snake_case)]

use crate::thread::ThreadHandle;
use crate::variable_queue::{same_slot, without, Head, Link};
use vstd::prelude::*;

verus! {

/// A collection of thread control blocks, in the order in which they were
/// put in.
pub struct ThreadCollection {
    /// The queue of the blocks.
    pub queue: Head,
}

impl ThreadCollection {
    /// An empty collection.
    pub fn new() -> (collection: ThreadCollection)
        ensures
            collection.queue@ == Seq::<usize>::empty(),
            forall|links: Seq<Link>| collection.queue.wf(links),
    {
        ThreadCollection { queue: Head::new() }
    }

    /// Puts a thread into the collection, behind the threads that are in it.
    /// A thread whose link slot is in use stays where it is.
    pub fn insertThread(&mut self, links: &mut Vec<Link>, thread: ThreadHandle) -> (inserted:
        ThreadHandle)
        requires
            old(self).queue.wf(old(links)@),
            thread.0 < old(links).len(),
        ensures
            inserted == thread,
            final(self).queue.wf(final(links)@),
            final(links).len() == old(links).len(),
            old(links)[thread.0 as int].in_queue_spec() ==> *final(self) == *old(self)
                && final(links)@ == old(links)@,
            !old(links)[thread.0 as int].in_queue_spec() ==> final(self).queue@
                == old(self).queue@.push(thread.0),
            forall|j: int|
                0 <= j < old(links).len() && !final(self).queue@.contains(j as usize)
                    ==> #[trigger] same_slot(old(links)@, final(links)@, j),
    {
        self.queue.insert_tail(links, thread.0);
        thread
    }

    /// Takes a thread out of the collection. A thread that is in no queue
    /// stays as it is.
    pub fn removeThread(&mut self, links: &mut Vec<Link>, thread: ThreadHandle) -> (removed:
        ThreadHandle)
        requires
            old(self).queue.wf(old(links)@),
            thread.0 < old(links).len(),
            old(links)[thread.0 as int].in_queue_spec() ==> old(self).queue@.contains(thread.0),
        ensures
            removed == thread,
            final(self).queue.wf(final(links)@),
            final(links).len() == old(links).len(),
            final(self).queue@ == without(old(self).queue@, thread.0),
            !final(links)[thread.0 as int].in_queue_spec(),
            forall|j: int|
                0 <= j < old(links).len() && j != thread.0 && !old(self).queue@.contains(j as usize)
                    ==> #[trigger] same_slot(old(links)@, final(links)@, j),
    {
        self.queue.remove(links, thread.0);
        thread
    }
}

} // verus!
