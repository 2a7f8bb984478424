//! The bounded producer/consumer handoff, modelled as a FIFO queue with
//! a strict capacity: an event offered to a full queue is handed back
//! rather than buffered, events leave in exactly the order they arrived,
//! and none is lost or duplicated. The thread plumbing that blocks a
//! producer on a full queue lives outside the library; this type carries
//! the queue's whole discipline.

use crate::types::InternalTrade;
use vstd::prelude::*;

verus! {

/// A bounded FIFO queue of trade events.
pub struct BoundedQueue {
    items: Vec<InternalTrade>,
    capacity: usize,
}

impl BoundedQueue {
    /// The queued events, oldest first.
    pub closed spec fn view(self) -> Seq<InternalTrade> {
        self.items@
    }

    /// The fixed capacity the queue was created with.
    pub closed spec fn spec_capacity(self) -> usize {
        self.capacity
    }

    /// The queue never holds more than its capacity.
    pub closed spec fn wf(self) -> bool {
        self.items@.len() <= self.capacity
    }

    /// An empty queue with the given capacity.
    pub fn with_capacity(capacity: usize) -> (q: Self)
        requires
            capacity >= 1,
        ensures
            q.wf(),
            q@ == Seq::<InternalTrade>::empty(),
            q@.len() <= q.spec_capacity(),
            q.spec_capacity() == capacity,
    {
        BoundedQueue { items: Vec::new(), capacity }
    }

    /// How many events are queued.
    pub fn len(&self) -> (r: usize)
        ensures
            r == self@.len(),
    {
        self.items.len()
    }

    /// Offer one event. A queue below capacity accepts it at the back;
    /// a full queue refuses and hands the event back unchanged, so no
    /// event is ever dropped.
    pub fn try_publish(&mut self, event: InternalTrade) -> (r: Option<InternalTrade>)
        requires
            old(self).wf(),
        ensures
            final(self).wf(),
            final(self)@.len() <= final(self).spec_capacity(),
            final(self).spec_capacity() == old(self).spec_capacity(),
            old(self)@.len() < old(self).spec_capacity() ==> {
                &&& r is None
                &&& final(self)@ == old(self)@.push(event)
            },
            old(self)@.len() >= old(self).spec_capacity() ==> {
                &&& r == Some(event)
                &&& final(self)@ == old(self)@
            },
    {
        if self.items.len() < self.capacity {
            self.items.push(event);
            None
        } else {
            Some(event)
        }
    }

    /// Take the oldest event, or nothing from an empty queue: strict
    /// first-in first-out, at-most-once delivery.
    pub fn take_next(&mut self) -> (r: Option<InternalTrade>)
        requires
            old(self).wf(),
        ensures
            final(self).wf(),
            final(self)@.len() <= final(self).spec_capacity(),
            final(self).spec_capacity() == old(self).spec_capacity(),
            old(self)@.len() == 0 ==> {
                &&& r is None
                &&& final(self)@ == old(self)@
            },
            old(self)@.len() > 0 ==> {
                &&& r == Some(old(self)@.first())
                &&& final(self)@ == old(self)@.drop_first()
            },
    {
        if self.items.len() > 0 {
            let item = self.items.remove(0);
            proof {
                assert(old(self).items@.remove(0) =~= old(self).items@.drop_first());
            }
            Some(item)
        } else {
            None
        }
    }
}

} // verus!
