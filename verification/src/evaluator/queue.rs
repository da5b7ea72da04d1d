//! The global message queue that `share`/`queue_push` fill and
//! `recv`/`queue_pop` drain.
use vstd::prelude::*;
use std::collections::VecDeque;

verus! {

/// A first-in first-out queue of values.
pub struct MessageQueue<V> {
    items: VecDeque<V>,
}

impl<V> View for MessageQueue<V> {
    type V = Seq<V>;

    closed spec fn view(&self) -> Seq<V> {
        self.items@
    }
}

impl<V> MessageQueue<V> {
    /// An empty queue.
    pub fn new() -> (q: Self)
        ensures
            q@ == Seq::<V>::empty(),
    {
        MessageQueue { items: VecDeque::new() }
    }

    /// The number of queued values.
    pub fn len(&self) -> (n: usize)
        ensures
            n == self@.len(),
    {
        self.items.len()
    }

    /// Appends a value at the back (`share`, `queue_push`).
    pub fn push(&mut self, value: V)
        ensures
            final(self)@ == old(self)@.push(value),
    {
        self.items.push_back(value);
    }

    /// Takes the value at the front (`recv`, `queue_pop`); `None` when the
    /// queue is empty.
    pub fn pop(&mut self) -> (r: Option<V>)
        ensures
            (r, final(self)@) == pop_spec(old(self)@),
    {
        self.items.pop_front()
    }
}

/// What taking the front of a queue gives: the front value (if any) and the
/// queue that remains.
pub open spec fn pop_spec<V>(q: Seq<V>) -> (Option<V>, Seq<V>) {
    if q.len() == 0 {
        (None, q)
    } else {
        (Some(q[0]), q.drop_first())
    }
}

/// Receiving from an empty queue yields nothing and leaves the queue empty.
pub proof fn law_recv_on_empty<V>()
    ensures
        pop_spec(Seq::<V>::empty()) == (None::<V>, Seq::<V>::empty()),
{
}

/// A value shared into an empty queue is the next one received.
pub proof fn law_receive_what_was_shared<V>(a: V)
    ensures
        pop_spec(Seq::<V>::empty().push(a)) == (Some(a), Seq::<V>::empty()),
{
    assert(Seq::<V>::empty().push(a).drop_first() =~= Seq::<V>::empty());
}

/// First in, first out: sharing a value behind a non-empty queue does not
/// change which value is received next, and the shared value stays last.
pub proof fn law_fifo<V>(q: Seq<V>, a: V)
    requires
        q.len() > 0,
    ensures
        pop_spec(q.push(a)).0 == pop_spec(q).0,
        pop_spec(q.push(a)).1 == pop_spec(q).1.push(a),
{
    assert(q.push(a).drop_first() =~= q.drop_first().push(a));
}

} // verus!
