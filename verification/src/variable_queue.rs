//! Intrusive doubly-linked queues.
//!
//! A queue does not own its elements. An element is named by its index, and
//! the link slots through which a queue threads its elements live in an arena
//! (`Vec<Link>`) that is handed to every operation: slot `i` of the arena is
//! the link of element `i`. One element can stand in several queues at once,
//! one per arena, and several queues can share one arena as long as no
//! element is in two of them.
//!
//! The order of a queue is its view, a `Seq<usize>` of element indices from
//! front to back. A queue is well formed with respect to an arena when the
//! `next` and `prev` slots of its members chain them in exactly that order.

use vstd::prelude::*;

verus! {

/// The link slot of one element: its neighbours in the queue that holds it,
/// and whether a queue holds it at all.
#[derive(Clone, Copy, Debug)]
pub struct Link {
    next: Option<usize>,
    prev: Option<usize>,
    inQueue: bool,
}

/// The head of a queue: its first and its last element.
pub struct Head {
    queueFront: Option<usize>,
    queueBack: Option<usize>,
    order: Ghost<Seq<usize>>,
}

impl Link {
    /// The element after this one, if any.
    pub closed spec fn next_spec(&self) -> Option<usize> {
        self.next
    }

    /// The element before this one, if any.
    pub closed spec fn prev_spec(&self) -> Option<usize> {
        self.prev
    }

    /// Whether the slot is in use by a queue.
    pub closed spec fn in_queue_spec(&self) -> bool {
        self.inQueue
    }

    /// Two slots with the same neighbours and the same flag are the same slot
    /// value.
    pub proof fn lemma_extensional(a: Link, b: Link)
        requires
            a.next_spec() == b.next_spec(),
            a.prev_spec() == b.prev_spec(),
            a.in_queue_spec() == b.in_queue_spec(),
        ensures
            a == b,
    {
    }

    /// A slot that is in no queue.
    pub fn new() -> (link: Link)
        ensures
            !link.in_queue_spec(),
            link.next_spec() is None,
            link.prev_spec() is None,
    {
        Link { next: None, prev: None, inQueue: false }
    }

    /// The successor of the slot's element, looked up in `elems`.
    pub fn next<'a, E>(&self, elems: &'a Vec<E>) -> (found: Option<&'a E>)
        requires
            self.next_spec() matches Some(i) ==> i < elems.len(),
        ensures
            found == match self.next_spec() {
                Some(i) => Some(&elems[i as int]),
                None => None,
            },
    {
        match self.next {
            Some(i) => Some(&elems[i]),
            None => None,
        }
    }

    /// The index of the successor of the slot's element.
    pub fn next_ptr(&self) -> (found: Option<usize>)
        ensures
            found == self.next_spec(),
    {
        self.next
    }

    /// The predecessor of the slot's element, looked up in `elems`.
    pub fn prev<'a, E>(&self, elems: &'a Vec<E>) -> (found: Option<&'a E>)
        requires
            self.prev_spec() matches Some(i) ==> i < elems.len(),
        ensures
            found == match self.prev_spec() {
                Some(i) => Some(&elems[i as int]),
                None => None,
            },
    {
        match self.prev {
            Some(i) => Some(&elems[i]),
            None => None,
        }
    }

    /// The index of the predecessor of the slot's element.
    pub fn prev_ptr(&self) -> (found: Option<usize>)
        ensures
            found == self.prev_spec(),
    {
        self.prev
    }

    /// Whether the slot is in use by a queue.
    pub fn in_queue(&self) -> (used: bool)
        ensures
            used == self.in_queue_spec(),
    {
        self.inQueue
    }
}

/// The first element of an order, if it has one.
pub open spec fn first_of(order: Seq<usize>) -> Option<usize> {
    if order.len() == 0 {
        None
    } else {
        Some(order[0])
    }
}

/// The last element of an order, if it has one.
pub open spec fn last_of(order: Seq<usize>) -> Option<usize> {
    if order.len() == 0 {
        None
    } else {
        Some(order[order.len() - 1])
    }
}

/// The element at position `i` of an order, or `None` outside of it.
pub open spec fn at_or_none(order: Seq<usize>, i: int) -> Option<usize> {
    if 0 <= i < order.len() {
        Some(order[i])
    } else {
        None
    }
}

/// What the arena holds for the member at position `i` of `order`: it is
/// marked as queued and its neighbours are the members beside it.
pub open spec fn linked_at(order: Seq<usize>, links: Seq<Link>, i: int) -> bool {
    let link = links[order[i] as int];
    &&& order[i] < links.len()
    &&& link.in_queue_spec()
    &&& link.prev_spec() == at_or_none(order, i - 1)
    &&& link.next_spec() == at_or_none(order, i + 1)
}

/// `order` without its element `elem`; `order` itself where `elem` does not
/// occur.
pub open spec fn without(order: Seq<usize>, elem: usize) -> Seq<usize> {
    if order.contains(elem) {
        order.remove(order.index_of(elem))
    } else {
        order
    }
}

/// `order` with `elem` put at position `at`.
pub open spec fn with_at(order: Seq<usize>, at: int, elem: usize) -> Seq<usize> {
    order.insert(at, elem)
}

/// Slot `j` of the arena is the same before and after.
pub open spec fn same_slot(before: Seq<Link>, after: Seq<Link>, j: int) -> bool {
    after[j] == before[j]
}

/// In an order without repetition, removing the element at position `i`
/// is removing the value found there.
pub proof fn lemma_without_at(order: Seq<usize>, i: int)
    requires
        order.no_duplicates(),
        0 <= i < order.len(),
    ensures
        without(order, order[i]) == order.remove(i),
        !order.remove(i).contains(order[i]),
        order.remove(i).no_duplicates(),
{
    let elem = order[i];
    assert(order.contains(elem));
    let j = order.index_of(elem);
    assert(order[j] == elem);
    assert(j == i);
    let rest = order.remove(i);
    assert forall|k: int| 0 <= k < rest.len() implies rest[k] != elem by {
        if k < i {
            assert(rest[k] == order[k]);
        } else {
            assert(rest[k] == order[k + 1]);
        }
    }
    assert forall|a: int, b: int| 0 <= a < rest.len() && 0 <= b < rest.len() && a != b
        implies rest[a]
        != rest[b] by {
        let a0 = if a < i { a } else { a + 1 };
        let b0 = if b < i { b } else { b + 1 };
        assert(rest[a] == order[a0]);
        assert(rest[b] == order[b0]);
    }
}

/// Putting a new element at the back and taking it out again gives the
/// order back.
pub proof fn lemma_push_then_without(order: Seq<usize>, elem: usize)
    requires
        order.no_duplicates(),
        !order.contains(elem),
    ensures
        without(order.push(elem), elem) == order,
{
    let longer = order.push(elem);
    assert forall|a: int, b: int| 0 <= a < longer.len() && 0 <= b < longer.len()
        && a != b implies longer[a]
        != longer[b] by {
        if a < order.len() {
            assert(order.contains(longer[a]));
        }
        if b < order.len() {
            assert(order.contains(longer[b]));
        }
    }
    assert(longer[order.len() as int] == elem);
    lemma_without_at(longer, order.len() as int);
    assert(longer.remove(order.len() as int) =~= order);
}

impl Head {
    /// The elements of the queue, front first.
    pub closed spec fn view(&self) -> Seq<usize> {
        self.order@
    }

    /// The element that the head records as the first.
    pub closed spec fn front_spec(&self) -> Option<usize> {
        self.queueFront
    }

    /// The element that the head records as the last.
    pub closed spec fn tail_spec(&self) -> Option<usize> {
        self.queueBack
    }

    /// The queue is well formed with respect to the arena `links`: no element
    /// occurs twice, every member's slot is marked and names the members
    /// beside it, and the head names the first and the last member.
    pub open spec fn wf(&self, links: Seq<Link>) -> bool {
        &&& self@.no_duplicates()
        &&& forall|i: int| 0 <= i < self@.len() ==> #[trigger] linked_at(self@, links, i)
        &&& self.front_spec() == first_of(self@)
        &&& self.tail_spec() == last_of(self@)
    }

    /// The queue is the only user of the arena: every marked slot belongs to
    /// one of its members.
    pub open spec fn exclusive(&self, links: Seq<Link>) -> bool {
        forall|j: int|
            0 <= j < links.len() && (#[trigger] links[j]).in_queue_spec() ==> self@.contains(
                j as usize,
            )
    }

    /// Two heads with the same order and the same ends are the same head.
    pub proof fn lemma_extensional(a: Head, b: Head)
        requires
            a@ == b@,
            a.front_spec() == b.front_spec(),
            a.tail_spec() == b.tail_spec(),
        ensures
            a == b,
    {
    }

    /// A member's slot is marked, so an unmarked slot belongs to no member.
    pub proof fn lemma_members_marked(&self, links: Seq<Link>, elem: usize)
        requires
            self.wf(links),
            self@.contains(elem),
        ensures
            elem < links.len(),
            links[elem as int].in_queue_spec(),
    {
        let i = choose|i: int| 0 <= i < self@.len() && self@[i] == elem;
        assert(linked_at(self@, links, i));
    }

    /// For a queue that has its arena to itself, an element is a member
    /// exactly when its slot is marked.
    pub proof fn lemma_contains_iff_in_queue(&self, links: Seq<Link>, elem: usize)
        requires
            self.wf(links),
            self.exclusive(links),
            elem < links.len(),
        ensures
            self@.contains(elem) <==> links[elem as int].in_queue_spec(),
    {
        if self@.contains(elem) {
            self.lemma_members_marked(links, elem);
        }
    }

    /// A queue stays well formed when the arena grows or changes only in
    /// slots that belong to none of its members.
    pub proof fn lemma_wf_frame(&self, before: Seq<Link>, after: Seq<Link>)
        requires
            self.wf(before),
            after.len() >= before.len(),
            forall|j: int|
                0 <= j < before.len() && self@.contains(j as usize) ==> #[trigger] same_slot(
                    before,
                    after,
                    j,
                ),
        ensures
            self.wf(after),
    {
        assert forall|i: int| 0 <= i < self@.len()
            implies #[trigger] linked_at(self@, after, i) by {
            assert(linked_at(self@, before, i));
            assert(self@.contains(self@[i]));
            assert(same_slot(before, after, self@[i] as int));
        }
    }

    /// An empty queue.
    pub fn new() -> (head: Head)
        ensures
            head@ == Seq::<usize>::empty(),
            forall|links: Seq<Link>| head.wf(links),
    {
        Head { queueFront: None, queueBack: None, order: Ghost(Seq::empty()) }
    }

    /// The first element of the queue, looked up in `elems`.
    pub fn front<'a, E>(&self, elems: &'a Vec<E>) -> (found: Option<&'a E>)
        requires
            self.front_spec() matches Some(i) ==> i < elems.len(),
        ensures
            found == match self.front_spec() {
                Some(i) => Some(&elems[i as int]),
                None => None,
            },
    {
        match self.queueFront {
            Some(i) => Some(&elems[i]),
            None => None,
        }
    }

    /// The index of the first element of the queue.
    pub fn front_ptr(&self) -> (found: Option<usize>)
        ensures
            found == self.front_spec(),
    {
        self.queueFront
    }

    /// The last element of the queue, looked up in `elems`.
    pub fn tail<'a, E>(&self, elems: &'a Vec<E>) -> (found: Option<&'a E>)
        requires
            self.tail_spec() matches Some(i) ==> i < elems.len(),
        ensures
            found == match self.tail_spec() {
                Some(i) => Some(&elems[i as int]),
                None => None,
            },
    {
        match self.queueBack {
            Some(i) => Some(&elems[i]),
            None => None,
        }
    }

    /// The index of the last element of the queue.
    pub fn tail_ptr(&self) -> (found: Option<usize>)
        ensures
            found == self.tail_spec(),
    {
        self.queueBack
    }

    /// Puts `elem` at the front of the queue. An element whose slot is
    /// already marked is left alone.
    pub fn insert_front(&mut self, links: &mut Vec<Link>, elem: usize) -> (inserted: usize)
        requires
            old(self).wf(old(links)@),
            elem < old(links).len(),
        ensures
            inserted == elem,
            final(self).wf(final(links)@),
            final(links).len() == old(links).len(),
            old(links)[elem as int].in_queue_spec() ==> *final(self) == *old(self) && final(links)@
                == old(links)@,
            !old(links)[elem as int].in_queue_spec() ==> final(self)@
                == with_at(old(self)@, 0, elem),
            forall|j: int|
                #![trigger same_slot(old(links)@, final(links)@, j)]
                #![trigger final(links)@[j]]
                0 <= j < old(links).len() && !final(self)@.contains(j as usize) ==> same_slot(
                    old(links)@,
                    final(links)@,
                    j,
                ),
    {
        if !links[elem].inQueue {
            let ghost before = self.order@;
            let ghost before_links = links@;
            proof {
                if before.contains(elem) {
                    self.lemma_members_marked(before_links, elem);
                }
            }
            let front = self.queueFront;
            links.set(elem, Link { next: front, prev: None, inQueue: true });
            match front {
                None => {
                    self.queueFront = Some(elem);
                    self.queueBack = Some(elem);
                },
                Some(first) => {
                    assert(linked_at(before, before_links, 0));
                    let slot = links[first];
                    links.set(first, Link { next: slot.next, prev: Some(elem),
                        inQueue: slot.inQueue });
                    self.queueFront = Some(elem);
                },
            }
            self.order = Ghost(before.insert(0, elem));
            proof {
                let after = self.order@;
                assert forall|a: int, b: int| 0 <= a < after.len() && 0 <= b < after.len() && a
                    != b implies after[a] != after[b] by {
                    if a > 0 {
                        assert(before.contains(after[a]));
                    }
                    if b > 0 {
                        assert(before.contains(after[b]));
                    }
                }
                assert forall|i: int| 0 <= i < after.len() implies #[trigger] linked_at(
                    after,
                    links@,
                    i,
                ) by {
                    if i > 0 {
                        assert(linked_at(before, before_links, i - 1));
                        assert(before.contains(after[i]));
                    }
                }
                assert forall|j: int|
                    0 <= j < before_links.len() && !after.contains(j as usize)
                        implies #[trigger] same_slot(
                    before_links,
                    links@,
                    j,
                ) by {
                    assert(after[0] == elem);
                    if before.len() > 0 {
                        assert(after[1] == before[0]);
                    }
                }
            }
        } else {
            proof {
                Head::lemma_extensional(*self, *old(self));
            }
        }
        elem
    }

    /// Puts `elem` at the back of the queue. An element whose slot is already
    /// marked is left alone.
    pub fn insert_tail(&mut self, links: &mut Vec<Link>, elem: usize) -> (inserted: usize)
        requires
            old(self).wf(old(links)@),
            elem < old(links).len(),
        ensures
            inserted == elem,
            final(self).wf(final(links)@),
            final(links).len() == old(links).len(),
            old(links)[elem as int].in_queue_spec() ==> *final(self) == *old(self) && final(links)@
                == old(links)@,
            !old(links)[elem as int].in_queue_spec() ==> final(self)@ == old(self)@.push(elem),
            forall|j: int|
                #![trigger same_slot(old(links)@, final(links)@, j)]
                #![trigger final(links)@[j]]
                0 <= j < old(links).len() && !final(self)@.contains(j as usize) ==> same_slot(
                    old(links)@,
                    final(links)@,
                    j,
                ),
    {
        if !links[elem].inQueue {
            let ghost before = self.order@;
            let ghost before_links = links@;
            proof {
                if before.contains(elem) {
                    self.lemma_members_marked(before_links, elem);
                }
            }
            let back = self.queueBack;
            links.set(elem, Link { next: None, prev: back, inQueue: true });
            match back {
                None => {
                    self.queueFront = Some(elem);
                    self.queueBack = Some(elem);
                },
                Some(last) => {
                    assert(linked_at(before, before_links, before.len() - 1));
                    let slot = links[last];
                    links.set(last, Link { next: Some(elem), prev: slot.prev,
                        inQueue: slot.inQueue });
                    self.queueBack = Some(elem);
                },
            }
            self.order = Ghost(before.push(elem));
            proof {
                let after = self.order@;
                assert forall|a: int, b: int| 0 <= a < after.len() && 0 <= b < after.len() && a
                    != b implies after[a] != after[b] by {
                    if a < before.len() {
                        assert(before.contains(after[a]));
                    }
                    if b < before.len() {
                        assert(before.contains(after[b]));
                    }
                }
                assert forall|i: int| 0 <= i < after.len() implies #[trigger] linked_at(
                    after,
                    links@,
                    i,
                ) by {
                    if i < before.len() {
                        assert(linked_at(before, before_links, i));
                        assert(before.contains(after[i]));
                    }
                }
                assert forall|j: int|
                    0 <= j < before_links.len() && !after.contains(j as usize)
                        implies #[trigger] same_slot(
                    before_links,
                    links@,
                    j,
                ) by {
                    assert(after[before.len() as int] == elem);
                    if before.len() > 0 {
                        assert(after[before.len() - 1] == before[before.len() - 1]);
                    }
                }
            }
        } else {
            proof {
                Head::lemma_extensional(*self, *old(self));
            }
        }
        elem
    }

    /// Puts `toinsert` directly behind the member `inQ`. Nothing happens when
    /// `inQ` is in no queue or the slot of `toinsert` is already marked.
    pub fn insert_after(&mut self, links: &mut Vec<Link>, inQ: usize, toinsert: usize) -> (inserted:
        usize)
        requires
            old(self).wf(old(links)@),
            inQ < old(links).len(),
            toinsert < old(links).len(),
            old(links)[inQ as int].in_queue_spec() ==> old(self)@.contains(inQ),
        ensures
            inserted == toinsert,
            final(self).wf(final(links)@),
            final(links).len() == old(links).len(),
            !old(links)[inQ as int].in_queue_spec() || old(links)[toinsert as int].in_queue_spec()
                ==> *final(self) == *old(self) && final(links)@ == old(links)@,
            old(links)[inQ as int].in_queue_spec() && !old(links)[toinsert as int].in_queue_spec()
                ==> final(self)@ == with_at(old(self)@, old(self)@.index_of(inQ) + 1, toinsert),
            forall|j: int|
                #![trigger same_slot(old(links)@, final(links)@, j)]
                #![trigger final(links)@[j]]
                0 <= j < old(links).len() && !final(self)@.contains(j as usize) ==> same_slot(
                    old(links)@,
                    final(links)@,
                    j,
                ),
    {
        if links[inQ].inQueue && !links[toinsert].inQueue {
            let ghost before = self.order@;
            let ghost before_links = links@;
            let ghost at = before.index_of(inQ);
            proof {
                if before.contains(toinsert) {
                    self.lemma_members_marked(before_links, toinsert);
                }
                assert(before[at] == inQ);
                assert(linked_at(before, before_links, at));
            }
            let pivot = links[inQ];
            links.set(toinsert, Link { next: pivot.next, prev: Some(inQ), inQueue: true });
            match pivot.next {
                None => {
                    links.set(inQ, Link { next: Some(toinsert), prev: pivot.prev,
                        inQueue: pivot.inQueue });
                    self.queueBack = Some(toinsert);
                },
                Some(after_pivot) => {
                    assert(linked_at(before, before_links, at + 1));
                    let slot = links[after_pivot];
                    links.set(
                        after_pivot,
                        Link { next: slot.next, prev: Some(toinsert), inQueue: slot.inQueue },
                    );
                    links.set(inQ, Link { next: Some(toinsert), prev: pivot.prev,
                        inQueue: pivot.inQueue });
                },
            }
            self.order = Ghost(before.insert(at + 1, toinsert));
            proof {
                let after = self.order@;
                assert forall|i: int| 0 <= i < after.len() implies (#[trigger] after[i]) == (if i
                    <= at {
                    before[i]
                } else if i == at + 1 {
                    toinsert
                } else {
                    before[i - 1]
                }) by {}
                assert forall|a: int, b: int| 0 <= a < after.len() && 0 <= b < after.len() && a
                    != b implies after[a] != after[b] by {
                    if a != at + 1 {
                        assert(before.contains(after[a]));
                    }
                    if b != at + 1 {
                        assert(before.contains(after[b]));
                    }
                }
                assert forall|i: int| 0 <= i < after.len() implies #[trigger] linked_at(
                    after,
                    links@,
                    i,
                ) by {
                    if i <= at {
                        assert(linked_at(before, before_links, i));
                        assert(before.contains(after[i]));
                    } else if i > at + 1 {
                        assert(linked_at(before, before_links, i - 1));
                        assert(before.contains(after[i]));
                    }
                }
                assert forall|j: int|
                    0 <= j < before_links.len() && !after.contains(j as usize)
                        implies #[trigger] same_slot(
                    before_links,
                    links@,
                    j,
                ) by {
                    assert(after[at] == inQ);
                    assert(after[at + 1] == toinsert);
                    if at + 1 < before.len() {
                        assert(after[at + 2] == before[at + 1]);
                    }
                }
            }
        } else {
            proof {
                Head::lemma_extensional(*self, *old(self));
            }
        }
        toinsert
    }

    /// Puts `toinsert` directly in front of the member `inQ`. Nothing happens
    /// when `inQ` is in no queue or the slot of `toinsert` is already marked.
    pub fn insert_before(&mut self, links: &mut Vec<Link>, inQ: usize, toinsert: usize)
        -> (inserted:
        usize)
        requires
            old(self).wf(old(links)@),
            inQ < old(links).len(),
            toinsert < old(links).len(),
            old(links)[inQ as int].in_queue_spec() ==> old(self)@.contains(inQ),
        ensures
            inserted == toinsert,
            final(self).wf(final(links)@),
            final(links).len() == old(links).len(),
            !old(links)[inQ as int].in_queue_spec() || old(links)[toinsert as int].in_queue_spec()
                ==> *final(self) == *old(self) && final(links)@ == old(links)@,
            old(links)[inQ as int].in_queue_spec() && !old(links)[toinsert as int].in_queue_spec()
                ==> final(self)@ == with_at(old(self)@, old(self)@.index_of(inQ), toinsert),
            forall|j: int|
                #![trigger same_slot(old(links)@, final(links)@, j)]
                #![trigger final(links)@[j]]
                0 <= j < old(links).len() && !final(self)@.contains(j as usize) ==> same_slot(
                    old(links)@,
                    final(links)@,
                    j,
                ),
    {
        if links[inQ].inQueue && !links[toinsert].inQueue {
            let ghost before = self.order@;
            let ghost before_links = links@;
            let ghost at = before.index_of(inQ);
            proof {
                if before.contains(toinsert) {
                    self.lemma_members_marked(before_links, toinsert);
                }
                assert(before[at] == inQ);
                assert(linked_at(before, before_links, at));
            }
            let pivot = links[inQ];
            links.set(toinsert, Link { next: Some(inQ), prev: pivot.prev, inQueue: true });
            match pivot.prev {
                None => {
                    links.set(inQ, Link { next: pivot.next, prev: Some(toinsert),
                        inQueue: pivot.inQueue });
                    self.queueFront = Some(toinsert);
                },
                Some(before_pivot) => {
                    assert(linked_at(before, before_links, at - 1));
                    let slot = links[before_pivot];
                    links.set(
                        before_pivot,
                        Link { next: Some(toinsert), prev: slot.prev, inQueue: slot.inQueue },
                    );
                    links.set(inQ, Link { next: pivot.next, prev: Some(toinsert),
                        inQueue: pivot.inQueue });
                },
            }
            self.order = Ghost(before.insert(at, toinsert));
            proof {
                let after = self.order@;
                assert forall|i: int| 0 <= i < after.len() implies (#[trigger] after[i]) == (if i
                    < at {
                    before[i]
                } else if i == at {
                    toinsert
                } else {
                    before[i - 1]
                }) by {}
                assert forall|a: int, b: int| 0 <= a < after.len() && 0 <= b < after.len() && a
                    != b implies after[a] != after[b] by {
                    if a != at {
                        assert(before.contains(after[a]));
                    }
                    if b != at {
                        assert(before.contains(after[b]));
                    }
                }
                assert forall|i: int| 0 <= i < after.len() implies #[trigger] linked_at(
                    after,
                    links@,
                    i,
                ) by {
                    if i < at {
                        assert(linked_at(before, before_links, i));
                        assert(before.contains(after[i]));
                    } else if i > at {
                        assert(linked_at(before, before_links, i - 1));
                        assert(before.contains(after[i]));
                    }
                }
                assert forall|j: int|
                    0 <= j < before_links.len() && !after.contains(j as usize)
                        implies #[trigger] same_slot(
                    before_links,
                    links@,
                    j,
                ) by {
                    assert(after[at] == toinsert);
                    assert(after[at + 1] == inQ);
                    if at > 0 {
                        assert(after[at - 1] == before[at - 1]);
                    }
                }
            }
        } else {
            proof {
                Head::lemma_extensional(*self, *old(self));
            }
        }
        toinsert
    }

    /// Takes `elem` out of the queue and clears the mark of its slot. An
    /// element whose slot is not marked is left alone.
    pub fn remove(&mut self, links: &mut Vec<Link>, elem: usize)
        requires
            old(self).wf(old(links)@),
            elem < old(links).len(),
            old(links)[elem as int].in_queue_spec() ==> old(self)@.contains(elem),
        ensures
            final(self).wf(final(links)@),
            final(links).len() == old(links).len(),
            final(self)@ == without(old(self)@, elem),
            !final(self)@.contains(elem),
            !old(links)[elem as int].in_queue_spec() ==> *final(self) == *old(self) && final(links)@
                == old(links)@,
            !final(links)[elem as int].in_queue_spec(),
            final(links)[elem as int].next_spec() == old(links)[elem as int].next_spec(),
            final(links)[elem as int].prev_spec() == old(links)[elem as int].prev_spec(),
            forall|j: int|
                #![trigger same_slot(old(links)@, final(links)@, j)]
                #![trigger final(links)@[j]]
                0 <= j < old(links).len() && j != elem && !old(self)@.contains(j as usize)
                    ==> same_slot(old(links)@, final(links)@, j),
    {
        if links[elem].inQueue {
            let ghost before = self.order@;
            let ghost before_links = links@;
            let ghost at = before.index_of(elem);
            proof {
                assert(before[at] == elem);
                assert(linked_at(before, before_links, at));
                lemma_without_at(before, at);
            }
            let slot = links[elem];
            links.set(elem, Link { next: slot.next, prev: slot.prev, inQueue: false });
            match slot.prev {
                None => {
                    self.queueFront = slot.next;
                },
                Some(before_elem) => {
                    assert(linked_at(before, before_links, at - 1));
                    let neighbour = links[before_elem];
                    links.set(
                        before_elem,
                        Link { next: slot.next, prev: neighbour.prev, inQueue: neighbour.inQueue },
                    );
                },
            }
            match slot.next {
                None => {
                    self.queueBack = slot.prev;
                },
                Some(after_elem) => {
                    assert(linked_at(before, before_links, at + 1));
                    let neighbour = links[after_elem];
                    links.set(
                        after_elem,
                        Link { next: neighbour.next, prev: slot.prev, inQueue: neighbour.inQueue },
                    );
                },
            }
            self.order = Ghost(before.remove(at));
            proof {
                let after = self.order@;
                assert forall|i: int| 0 <= i < after.len() implies (#[trigger] after[i]) == (if i
                    < at {
                    before[i]
                } else {
                    before[i + 1]
                }) by {}
                assert forall|i: int| 0 <= i < after.len() implies #[trigger] linked_at(
                    after,
                    links@,
                    i,
                ) by {
                    if i < at {
                        assert(linked_at(before, before_links, i));
                    } else {
                        assert(linked_at(before, before_links, i + 1));
                    }
                }
                assert forall|j: int|
                    0 <= j < before_links.len() && j != elem && !before.contains(j as usize)
                    implies #[trigger] same_slot(before_links, links@, j) by {
                    if at > 0 {
                        assert(before.contains(before[at - 1]));
                    }
                    if at + 1 < before.len() {
                        assert(before.contains(before[at + 1]));
                    }
                }
            }
        } else {
            proof {
                if self.order@.contains(elem) {
                    self.lemma_members_marked(links@, elem);
                }
                Head::lemma_extensional(*self, *old(self));
            }
        }
    }

    /// The elements of the queue in order, front first.
    pub fn iter(&self, links: &Vec<Link>) -> (order: Vec<usize>)
        requires
            self.wf(links@),
        ensures
            order@ == self@,
    {
        let mut order: Vec<usize> = Vec::new();
        let mut cursor = self.queueFront;
        let ghost mut seen: int = 0;
        while cursor.is_some()
            invariant
                self.wf(links@),
                0 <= seen <= self@.len(),
                cursor == at_or_none(self@, seen),
                order@ == self@.take(seen),
            decreases self@.len() - seen,
        {
            let current = cursor.unwrap();
            assert(linked_at(self@, links@, seen));
            order.push(current);
            cursor = links[current].next;
            proof {
                assert(self@.take(seen + 1) =~= self@.take(seen).push(current));
                seen = seen + 1;
            }
        }
        assert(self@.take(seen) =~= self@);
        order
    }
}

/// What is left of an order without repetition once `elem` is taken out:
/// everything else, and not `elem`.
pub proof fn lemma_without_contains(order: Seq<usize>, elem: usize, x: usize)
    requires
        order.no_duplicates(),
    ensures
        without(order, elem).contains(x) <==> order.contains(x) && x != elem,
        without(order, elem).no_duplicates(),
        order.contains(elem) ==> without(order, elem).len() == order.len() - 1,
{
    if order.contains(elem) {
        let at = order.index_of(elem);
        let rest = order.remove(at);
        lemma_without_at(order, at);
        if order.contains(x) && x != elem {
            let i = order.index_of(x);
            if i < at {
                assert(rest[i] == x);
            } else {
                assert(rest[i - 1] == x);
            }
        }
        if rest.contains(x) {
            let k = rest.index_of(x);
            if k < at {
                assert(order[k] == x);
            } else {
                assert(order[k + 1] == x);
            }
        }
    }
}

/// What an order holds once `elem` has been put in at position `at`:
/// everything it held, and `elem`.
pub proof fn lemma_with_at_contains(order: Seq<usize>, at: int, elem: usize, x: usize)
    requires
        0 <= at <= order.len(),
    ensures
        with_at(order, at, elem).contains(x) <==> order.contains(x) || x == elem,
        with_at(order, at, elem).len() == order.len() + 1,
{
    let longer = order.insert(at, elem);
    assert(longer[at] == elem);
    if order.contains(x) {
        let i = order.index_of(x);
        if i < at {
            assert(longer[i] == x);
        } else {
            assert(longer[i + 1] == x);
        }
    }
    if longer.contains(x) && x != elem {
        let k = longer.index_of(x);
        if k < at {
            assert(order[k] == x);
        } else {
            assert(order[k - 1] == x);
        }
    }
}

/// Taking out an element that was just put at the back restores the order
/// of the queue.
pub proof fn lemma_insert_tail_then_remove(head: Head, links: Seq<Link>, elem: usize)
    requires
        head.wf(links),
        elem < links.len(),
        !links[elem as int].in_queue_spec(),
    ensures
        without(head@.push(elem), elem) == head@,
{
    if head@.contains(elem) {
        head.lemma_members_marked(links, elem);
    }
    lemma_push_then_without(head@, elem);
}

/// The order of a queue fixes the slots of its members: two arenas with
/// respect to which one queue is well formed agree on every member's slot.
pub proof fn lemma_order_fixes_slots(head: Head, one: Seq<Link>, other: Seq<Link>, elem: usize)
    requires
        head.wf(one),
        head.wf(other),
        head@.contains(elem),
    ensures
        one[elem as int] == other[elem as int],
{
    let i = choose|i: int| 0 <= i < head@.len() && head@[i] == elem;
    assert(linked_at(head@, one, i));
    assert(linked_at(head@, other, i));
    Link::lemma_extensional(one[elem as int], other[elem as int]);
}

} // verus!
