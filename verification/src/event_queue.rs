//! The global event queue.
use vstd::multiset::Multiset;
use vstd::prelude::*;

use crate::event::Event;
use crate::heap::{MinHeap, Ranked};

verus! {

impl Ranked for Event {
    open spec fn rank_le(self, other: Self) -> bool {
        self.id.precedes(other.id)
    }

    proof fn rank_total(a: Self, b: Self) {
    }

    proof fn rank_transitive(a: Self, b: Self, c: Self) {
    }

    fn may_leave_before(&self, other: &Self) -> (r: bool) {
        self.id.not_after(&other.id)
    }
}

/// Deterministic global event queue ordered by (`ts_sim`, `seq`).
#[derive(Debug)]
pub struct EventQueue {
    heap: MinHeap<Event>,
}

impl View for EventQueue {
    type V = Multiset<Event>;

    closed spec fn view(&self) -> Multiset<Event> {
        self.heap@
    }
}

/// Whether `e` may be the next event of `queue`: none in it comes before.
pub open spec fn is_next(queue: Multiset<Event>, e: Event) -> bool {
    queue.contains(e) && forall|other: Event| #[trigger]
        queue.contains(other) ==> e.id.precedes(other.id)
}

impl EventQueue {
    /// The internal order of the heap holds.
    pub closed spec fn wf(&self) -> bool {
        self.heap.wf()
    }

    pub fn new() -> (r: Self)
        ensures
            r.wf(),
            r@ == Multiset::<Event>::empty(),
    {
        EventQueue { heap: MinHeap::new() }
    }

    pub fn len(&self) -> (r: usize)
        ensures
            r == self@.len(),
    {
        self.heap.len()
    }

    pub fn is_empty(&self) -> (r: bool)
        ensures
            r == (self@.len() == 0),
    {
        self.heap.is_empty()
    }

    /// The event that leaves next, where there is one.
    pub closed spec fn front(&self) -> Option<Event> {
        self.heap.front()
    }

    /// The event that `pop` would return.
    pub fn peek(&self) -> (r: Option<&Event>)
        requires
            self.wf(),
        ensures
            match r {
                Some(e) => self.front() == Some(*e) && is_next(self@, *e),
                None => self.front() is None && self@.len() == 0,
            },
    {
        self.heap.peek()
    }

    pub fn push(&mut self, event: Event)
        requires
            old(self).wf(),
        ensures
            final(self).wf(),
            final(self)@ == old(self)@.insert(event),
    {
        self.heap.push(event);
    }

    /// Removes the earliest event: the smallest `ts_sim`, and of those the smallest `seq`.
    pub fn pop(&mut self) -> (r: Option<Event>)
        requires
            old(self).wf(),
        ensures
            final(self).wf(),
            r == old(self).front(),
            match r {
                Some(e) => is_next(old(self)@, e) && final(self)@ == old(self)@.remove(e),
                None => old(self)@.len() == 0 && final(self)@ == old(self)@,
            },
    {
        self.heap.pop()
    }
}

impl Default for EventQueue {
    fn default() -> (r: Self)
        ensures
            r.wf(),
            r@ == Multiset::<Event>::empty(),
    {
        EventQueue::new()
    }
}

/// Two events leave in the order of their identifiers: what is left after one
/// was the next event never comes before it.
pub proof fn law_events_leave_in_order(queue: Multiset<Event>, first: Event, second: Event)
    requires
        is_next(queue, first),
        is_next(queue.remove(first), second),
    ensures
        first.id.precedes(second.id),
{
    assert(queue.contains(second));
}

/// Events of the same time leave in the order in which they were scheduled: while the one
/// with the smaller sequence number is queued, the other does not leave.
pub proof fn law_equal_times_leave_in_order(queue: Multiset<Event>, first: Event, second: Event)
    requires
        queue.contains(first),
        first.id.ts_sim == second.id.ts_sim,
        first.id.seq < second.id.seq,
    ensures
        !is_next(queue, second),
{
}

/// Where no two queued events share an identifier, the next event is determined.
pub proof fn law_next_event_is_determined(queue: Multiset<Event>, a: Event, b: Event)
    requires
        forall|x: Event, y: Event|
            #![trigger queue.contains(x), queue.contains(y)]
            queue.contains(x) && queue.contains(y) && x.id == y.id ==> x == y,
        is_next(queue, a),
        is_next(queue, b),
    ensures
        a == b,
{
    assert(a.id.precedes(b.id) && b.id.precedes(a.id));
}

} // verus!
