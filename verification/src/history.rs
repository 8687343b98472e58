//! The history buffer: a bounded FIFO of recently sent chunk offsets, kept so
//! that late subscribers can be served the most recent samples.
//!
//! The queue itself comes from `iceoryx2_bb_container`; its contents are
//! named by an uninterpreted sequence, and each call the core makes is
//! wrapped with the contract the queue's source shows.

use vstd::prelude::*;

use iceoryx2_bb_container::queue::Queue;
// the queue's failure paths log; this selects the crate that carries the
// default logger the log facade links against
use iceoryx2_bb_loggers as _;

verus! {

/// Holder of the offset queue from `iceoryx2_bb_container`. The queue's
/// generics cannot be declared to the verifier, so it is carried opaquely in
/// this struct and reached only through the wrappers below.
#[verifier::external_body]
pub struct HistoryQueue {
    queue: Queue<usize>,
}

/// The offsets a queue holds, oldest first.
pub uninterp spec fn queue_contents(q: HistoryQueue) -> Seq<usize>;

/// The capacity the queue was created with.
pub uninterp spec fn queue_capacity(q: HistoryQueue) -> nat;

/// Relies on `Queue::new`: a freshly allocated queue of the given capacity
/// holds nothing.
#[verifier::external_body]
fn queue_new(capacity: usize) -> (r: HistoryQueue)
    ensures
        queue_contents(r) == Seq::<usize>::empty(),
        queue_capacity(r) == capacity,
{
    HistoryQueue { queue: Queue::new(capacity) }
}

/// Relies on `MetaQueue::push_with_overflow`: the value is appended; a queue
/// already at capacity first pops and returns its oldest entry.
#[verifier::external_body]
fn queue_push_with_overflow(q: &mut HistoryQueue, value: usize) -> (r: Option<usize>)
    requires
        queue_capacity(*old(q)) >= 1,
        queue_contents(*old(q)).len() <= queue_capacity(*old(q)),
    ensures
        queue_capacity(*final(q)) == queue_capacity(*old(q)),
        queue_contents(*old(q)).len() < queue_capacity(*old(q)) ==> r is None
            && queue_contents(*final(q)) == queue_contents(*old(q)).push(value),
        queue_contents(*old(q)).len() == queue_capacity(*old(q)) ==> r == Some(
            queue_contents(*old(q))[0],
        ) && queue_contents(*final(q)) == queue_contents(*old(q)).drop_first().push(value),
{
    q.queue.push_with_overflow(value)
}

/// Relies on `MetaQueue::len`: the number of elements held.
#[verifier::external_body]
fn queue_len(q: &HistoryQueue) -> (r: usize)
    ensures
        r == queue_contents(*q).len(),
{
    q.queue.len()
}

/// Relies on `MetaQueue::get`: a copy of the element at `index`, counted from
/// the oldest; out-of-range indices abort, so they are excluded here.
#[verifier::external_body]
fn queue_get(q: &HistoryQueue, index: usize) -> (r: usize)
    requires
        index < queue_contents(*q).len(),
    ensures
        r == queue_contents(*q)[index as int],
{
    q.queue.get(index)
}

/// Bounded FIFO of the offsets of the most recently sent chunks.
pub struct HistoryBuffer {
    queue: HistoryQueue,
}

impl HistoryBuffer {
    /// The retained offsets, oldest first.
    pub closed spec fn contents(&self) -> Seq<usize> {
        queue_contents(self.queue)
    }

    /// How many offsets the buffer can retain.
    pub closed spec fn capacity(&self) -> nat {
        queue_capacity(self.queue)
    }

    pub open spec fn wf(&self) -> bool {
        &&& self.capacity() >= 1
        &&& self.contents().len() <= self.capacity()
    }

    /// An empty history retaining up to `capacity` offsets.
    pub fn new(capacity: usize) -> (r: HistoryBuffer)
        requires
            capacity >= 1,
        ensures
            r.wf(),
            r.contents() == Seq::<usize>::empty(),
            r.capacity() == capacity,
    {
        HistoryBuffer { queue: queue_new(capacity) }
    }

    /// Appends `offset`; a full history evicts and returns its oldest entry.
    pub fn push(&mut self, offset: usize) -> (evicted: Option<usize>)
        requires
            old(self).wf(),
        ensures
            final(self).wf(),
            final(self).capacity() == old(self).capacity(),
            old(self).contents().len() < old(self).capacity()
                ==> evicted is None
                    && final(self).contents() == old(self).contents().push(offset),
            old(self).contents().len() == old(self).capacity()
                ==> evicted == Some(old(self).contents()[0])
                    && final(self).contents() == old(self).contents().drop_first().push(offset),
    {
        queue_push_with_overflow(&mut self.queue, offset)
    }

    /// The number of retained offsets.
    pub fn len(&self) -> (r: usize)
        ensures
            r == self.contents().len(),
    {
        queue_len(&self.queue)
    }

    /// The retained offset at `index`, counted from the oldest.
    pub fn get(&self, index: usize) -> (r: usize)
        requires
            index < self.contents().len(),
        ensures
            r == self.contents()[index as int],
    {
        queue_get(&self.queue, index)
    }
}

} // verus!
