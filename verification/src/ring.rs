//! The bounded single-producer/single-consumer ring that carries work from
//! the dispatcher to one worker: fixed capacity, never grows, first-in
//! first-out. One item is a packet handle paired with the handle of the
//! control block that owns it.
//!
//! Ghost history records everything ever enqueued and dequeued; the
//! well-formedness invariant makes the queue the still-undelivered suffix,
//! so the dequeued sequence is always a prefix of the enqueued sequence.

use vstd::prelude::*;

verus! {

/// One unit of work: `(packet handle, control-block handle)`. Handles are
/// indices into per-worker tables; the ring itself moves only plain values.
pub type WorkItem = (u64, u32);

/// A fixed-capacity first-in/first-out ring.
pub struct Ring {
    /// Storage: one slot per capacity unit.
    pub buf: Vec<WorkItem>,
    /// Index of the oldest item.
    pub head: usize,
    /// Number of items queued.
    pub len: usize,
    /// Everything ever enqueued, oldest first (ghost).
    pub enqueued: Ghost<Seq<WorkItem>>,
    /// Everything ever dequeued, oldest first (ghost).
    pub dequeued: Ghost<Seq<WorkItem>>,
}

impl Ring {
    /// The items currently queued, oldest first.
    pub open spec fn view(self) -> Seq<WorkItem> {
        if self.head + self.len <= self.buf@.len() {
            self.buf@.subrange(self.head as int, self.head + self.len)
        } else {
            self.buf@.subrange(self.head as int, self.buf@.len() as int)
                + self.buf@.subrange(0, self.head + self.len - self.buf@.len())
        }
    }

    /// The ring's fixed capacity.
    pub open spec fn capacity(self) -> nat {
        self.buf@.len()
    }

    /// Well-formedness: the indices stay inside the storage, and the ghost
    /// history matches the queue: what was enqueued is what was dequeued
    /// followed by what still waits.
    pub open spec fn wf(self) -> bool {
        &&& 0 < self.buf@.len() <= 0x1000_0000
        &&& self.head < self.buf@.len()
        &&& self.len <= self.buf@.len()
        &&& self.enqueued@ == self.dequeued@ + self.view()
    }

    /// A ring of capacity `capacity`.
    pub fn new(capacity: usize) -> (r: Ring)
        requires
            0 < capacity <= 0x1000_0000,
        ensures
            r.wf(),
            r.capacity() == capacity,
            r@.len() == 0,
            r.enqueued@.len() == 0,
            r.dequeued@.len() == 0,
    {
        let mut buf: Vec<WorkItem> = Vec::new();
        let mut i: usize = 0;
        while i < capacity
            invariant
                i <= capacity,
                buf@.len() == i,
            decreases capacity - i,
        {
            buf.push((0, 0));
            i = i + 1;
        }
        let r = Ring {
            buf,
            head: 0,
            len: 0,
            enqueued: Ghost(Seq::empty()),
            dequeued: Ghost(Seq::empty()),
        };
        proof {
            assert(r@ =~= Seq::<WorkItem>::empty());
            assert(r.enqueued@ =~= r.dequeued@ + r@);
        }
        r
    }

    /// Whether the ring holds nothing.
    pub fn is_empty(&self) -> (r: bool)
        requires
            self.wf(),
        ensures
            r == (self@.len() == 0),
    {
        self.len == 0
    }

    /// How many items are queued.
    pub fn queued(&self) -> (r: usize)
        requires
            self.wf(),
        ensures
            r == self@.len(),
    {
        self.len
    }

    /// Tries to add an item at the tail. Fails — leaving everything
    /// unchanged — exactly when the ring already holds `capacity` items:
    /// it never reports full with fewer.
    pub fn try_enqueue(&mut self, item: WorkItem) -> (r: Result<(), WorkItem>)
        requires
            old(self).wf(),
        ensures
            final(self).wf(),
            final(self).capacity() == old(self).capacity(),
            final(self).dequeued == old(self).dequeued,
            old(self)@.len() < old(self).capacity() ==> {
                &&& r is Ok
                &&& final(self)@ == old(self)@.push(item)
                &&& final(self).enqueued@ == old(self).enqueued@.push(item)
            },
            old(self)@.len() == old(self).capacity() ==> {
                &&& r == Err::<(), WorkItem>(item)
                &&& *final(self) == *old(self)
            },
    {
        if self.len == self.buf.len() {
            return Err(item);
        }
        let cap = self.buf.len();
        let mut slot = self.head + self.len;
        if slot >= cap {
            slot = slot - cap;
        }
        self.buf.set(slot, item);
        self.len = self.len + 1;
        self.enqueued = Ghost(self.enqueued@.push(item));
        proof {
            assert(self@ =~= old(self)@.push(item));
            assert(self.enqueued@ =~= self.dequeued@ + self@);
        }
        Ok(())
    }

    /// Takes the oldest item, if any. What comes out, across any run of
    /// calls, is a prefix of what went in, in order.
    pub fn try_dequeue(&mut self) -> (r: Option<WorkItem>)
        requires
            old(self).wf(),
        ensures
            final(self).wf(),
            final(self).capacity() == old(self).capacity(),
            final(self).enqueued == old(self).enqueued,
            old(self)@.len() == 0 ==> r is None && *final(self) == *old(self),
            old(self)@.len() > 0 ==> {
                &&& r == Some(old(self)@[0])
                &&& final(self)@ == old(self)@.skip(1)
                &&& final(self).dequeued@ == old(self).dequeued@.push(old(self)@[0])
            },
    {
        if self.len == 0 {
            return None;
        }
        let item = self.buf[self.head];
        proof {
            assert(item == self@[0]);
        }
        self.head = if self.head + 1 == self.buf.len() { 0 } else { self.head + 1 };
        self.len = self.len - 1;
        self.dequeued = Ghost(self.dequeued@.push(item));
        proof {
            assert(self@ =~= old(self)@.skip(1));
            assert(self.enqueued@ =~= self.dequeued@ + self@);
        }
        Some(item)
    }
}

/// The pair of rings a dispatcher and one worker share through a scratch
/// area: work inbound to the worker, completions back out.
pub struct CatnipMessage {
    /// Completions from the worker to the dispatcher.
    pub ring_tx: Ring,
    /// Work from the dispatcher to the worker.
    pub ring_rx: Ring,
}

impl CatnipMessage {
    /// A fresh pair of rings of the given capacity.
    pub fn new(capacity: usize) -> (r: CatnipMessage)
        requires
            0 < capacity <= 0x1000_0000,
        ensures
            r.ring_tx.wf() && r.ring_rx.wf(),
            r.ring_tx@.len() == 0 && r.ring_rx@.len() == 0,
            r.ring_tx.capacity() == capacity && r.ring_rx.capacity() == capacity,
    {
        CatnipMessage { ring_tx: Ring::new(capacity), ring_rx: Ring::new(capacity) }
    }
}

/// For any interleaving of enqueues and dequeues on a ring, the sequence
/// dequeued so far is a prefix of the sequence enqueued so far; and the ring
/// reports full only when it holds exactly its capacity (`try_enqueue`'s
/// contract), never with fewer items.
pub proof fn lemma_dequeued_prefix_of_enqueued(r: Ring)
    requires
        r.wf(),
    ensures
        r.dequeued@.len() <= r.enqueued@.len(),
        r.dequeued@ == r.enqueued@.take(r.dequeued@.len() as int),
{
    assert(r.enqueued@.take(r.dequeued@.len() as int) =~= r.dequeued@);
}

} // verus!
