//! One publisher-to-subscriber connection.
//!
//! The cross-process primitive behind it is a single-producer single-consumer
//! ring of chunk offsets plus the bookkeeping which offsets the subscriber
//! still holds. The connection state is held here as explicit sequences so
//! that every transfer of an offset — enqueue, receive, return, reclaim — is
//! a proved step of the reference-count protocol: `ring` holds offsets
//! delivered but not yet received, `retained` offsets the subscriber holds,
//! `returned` offsets given back but not yet reclaimed by the publisher.

use vstd::prelude::*;

use crate::counting::count_of;
use crate::errors::ZeroCopySendError;
use crate::types::UniqueSubscriberId;

verus! {

/// A slot of the subscriber connection table.
pub struct Connection {
    pub subscriber_id: UniqueSubscriberId,
    /// Capacity of the ring towards the subscriber.
    pub buffer_size: usize,
    /// Bound on the offsets the connection can track at once, in flight or
    /// held by the subscriber; an enqueue beyond it is refused.
    pub sample_capacity: usize,
    /// Whether an enqueue into the full ring displaces the oldest entry.
    pub enable_safe_overflow: bool,
    /// Set once the peer is detected to be corrupted; every further enqueue
    /// fails.
    pub corrupted: bool,
    /// Offsets enqueued towards the subscriber, oldest first.
    pub ring: Vec<usize>,
    /// Offsets the subscriber has received and still holds.
    pub retained: Vec<usize>,
    /// Offsets the subscriber has returned, awaiting reclamation.
    pub returned: Vec<usize>,
}

impl Connection {
    /// How often the connection holds a reference to offset `x`.
    pub open spec fn edge_count(&self, x: usize) -> nat {
        count_of(self.ring@, x) + count_of(self.retained@, x) + count_of(self.returned@, x)
    }

    /// Total number of references the connection holds.
    pub open spec fn edge_total(&self) -> nat {
        self.ring@.len() + self.retained@.len() + self.returned@.len()
    }

    pub open spec fn wf(&self) -> bool {
        &&& self.buffer_size >= 1
        &&& self.buffer_size <= self.sample_capacity
        &&& self.ring@.len() <= self.buffer_size
        &&& self.edge_total() <= self.sample_capacity
    }

    /// The identity and configuration of `self` agree with `other`; only the
    /// offset sequences may differ.
    pub open spec fn same_link(&self, other: &Connection) -> bool {
        &&& self.subscriber_id == other.subscriber_id
        &&& self.buffer_size == other.buffer_size
        &&& self.sample_capacity == other.sample_capacity
        &&& self.enable_safe_overflow == other.enable_safe_overflow
        &&& self.corrupted == other.corrupted
    }

    /// Opens a fresh connection; nothing is in flight yet.
    pub fn new(
        subscriber_id: UniqueSubscriberId,
        buffer_size: usize,
        sample_capacity: usize,
        enable_safe_overflow: bool,
    ) -> (r: Connection)
        requires
            buffer_size >= 1,
            buffer_size <= sample_capacity,
        ensures
            r.wf(),
            r.subscriber_id == subscriber_id,
            r.buffer_size == buffer_size,
            r.sample_capacity == sample_capacity,
            r.enable_safe_overflow == enable_safe_overflow,
            !r.corrupted,
            r.ring@ =~= Seq::<usize>::empty(),
            r.retained@ =~= Seq::<usize>::empty(),
            r.returned@ =~= Seq::<usize>::empty(),
    {
        Connection {
            subscriber_id,
            buffer_size,
            sample_capacity,
            enable_safe_overflow,
            corrupted: false,
            ring: Vec::new(),
            retained: Vec::new(),
            returned: Vec::new(),
        }
    }

    /// Enqueues `offset` towards the subscriber without waiting. On a full
    /// ring the oldest entry is displaced and handed back when the service
    /// overflows, otherwise the enqueue is refused; it is also refused when
    /// the connection already tracks as many offsets as it can.
    pub fn try_send(&mut self, offset: usize) -> (r: Result<Option<usize>, ZeroCopySendError>)
        requires
            old(self).wf(),
        ensures
            final(self).wf(),
            final(self).same_link(old(self)),
            final(self).retained == old(self).retained,
            final(self).returned == old(self).returned,
            old(self).corrupted
                ==> r == Result::<Option<usize>, ZeroCopySendError>::Err(ZeroCopySendError::ConnectionCorrupted)
                    && final(self).ring == old(self).ring,
            (!old(self).corrupted && old(self).ring@.len() < old(self).buffer_size
                && old(self).edge_total() < old(self).sample_capacity)
                ==> r == Result::<Option<usize>, ZeroCopySendError>::Ok(None)
                    && final(self).ring@ =~= old(self).ring@.push(offset),
            (!old(self).corrupted && old(self).ring@.len() < old(self).buffer_size
                && old(self).edge_total() >= old(self).sample_capacity)
                ==> r == Result::<Option<usize>, ZeroCopySendError>::Err(ZeroCopySendError::UsedChunkListFull)
                    && final(self).ring == old(self).ring,
            (!old(self).corrupted && old(self).ring@.len() >= old(self).buffer_size
                && old(self).enable_safe_overflow)
                ==> r == Result::<Option<usize>, ZeroCopySendError>::Ok(Some(old(self).ring@[0]))
                    && final(self).ring@ =~= old(self).ring@.drop_first().push(offset),
            (!old(self).corrupted && old(self).ring@.len() >= old(self).buffer_size
                && !old(self).enable_safe_overflow)
                ==> r == Result::<Option<usize>, ZeroCopySendError>::Err(ZeroCopySendError::ReceiveBufferFull)
                    && final(self).ring == old(self).ring,
    {
        if self.corrupted {
            return Err(ZeroCopySendError::ConnectionCorrupted);
        }
        if self.ring.len() < self.buffer_size {
            let used = self.ring.len() + self.retained.len() + self.returned.len();
            if used >= self.sample_capacity {
                Err(ZeroCopySendError::UsedChunkListFull)
            } else {
                self.ring.push(offset);
                Ok(None)
            }
        } else if self.enable_safe_overflow {
            let displaced = self.ring.remove(0);
            self.ring.push(offset);
            assert(self.ring@ =~= old(self).ring@.drop_first().push(offset));
            Ok(Some(displaced))
        } else {
            Err(ZeroCopySendError::ReceiveBufferFull)
        }
    }

    /// Enqueues `offset`, waiting for ring space under the blocking strategy.
    /// Waiting needs the subscriber to drain the ring concurrently; with the
    /// connection state held in-process nothing can drain it meanwhile, so a
    /// full ring reports itself instead of suspending, exactly as
    /// [`Connection::try_send`] does.
    pub fn blocking_send(&mut self, offset: usize) -> (r: Result<Option<usize>, ZeroCopySendError>)
        requires
            old(self).wf(),
        ensures
            final(self).wf(),
            final(self).same_link(old(self)),
            final(self).retained == old(self).retained,
            final(self).returned == old(self).returned,
            old(self).corrupted
                ==> r == Result::<Option<usize>, ZeroCopySendError>::Err(ZeroCopySendError::ConnectionCorrupted)
                    && final(self).ring == old(self).ring,
            (!old(self).corrupted && old(self).ring@.len() < old(self).buffer_size
                && old(self).edge_total() < old(self).sample_capacity)
                ==> r == Result::<Option<usize>, ZeroCopySendError>::Ok(None)
                    && final(self).ring@ =~= old(self).ring@.push(offset),
            (!old(self).corrupted && old(self).ring@.len() < old(self).buffer_size
                && old(self).edge_total() >= old(self).sample_capacity)
                ==> r == Result::<Option<usize>, ZeroCopySendError>::Err(ZeroCopySendError::UsedChunkListFull)
                    && final(self).ring == old(self).ring,
            (!old(self).corrupted && old(self).ring@.len() >= old(self).buffer_size
                && old(self).enable_safe_overflow)
                ==> r == Result::<Option<usize>, ZeroCopySendError>::Ok(Some(old(self).ring@[0]))
                    && final(self).ring@ =~= old(self).ring@.drop_first().push(offset),
            (!old(self).corrupted && old(self).ring@.len() >= old(self).buffer_size
                && !old(self).enable_safe_overflow)
                ==> r == Result::<Option<usize>, ZeroCopySendError>::Err(ZeroCopySendError::ReceiveBufferFull)
                    && final(self).ring == old(self).ring,
    {
        self.try_send(offset)
    }

    /// The subscriber side: takes the oldest enqueued offset and keeps holding
    /// it.
    pub fn receive(&mut self) -> (r: Option<usize>)
        ensures
            final(self).same_link(old(self)),
            old(self).wf() ==> final(self).wf(),
            final(self).returned == old(self).returned,
            old(self).ring@.len() == 0
                ==> r is None && final(self).ring == old(self).ring
                    && final(self).retained == old(self).retained,
            old(self).ring@.len() > 0
                ==> r == Some(old(self).ring@[0])
                    && final(self).ring@ =~= old(self).ring@.drop_first()
                    && final(self).retained@ =~= old(self).retained@.push(old(self).ring@[0]),
    {
        if self.ring.len() == 0 {
            None
        } else {
            let offset = self.ring.remove(0);
            assert(self.ring@ =~= old(self).ring@.drop_first());
            self.retained.push(offset);
            Some(offset)
        }
    }

    /// The subscriber side: gives one held offset back through the connection.
    /// Returns whether the subscriber actually held it.
    pub fn release(&mut self, offset: usize) -> (r: bool)
        ensures
            final(self).same_link(old(self)),
            old(self).wf() ==> final(self).wf(),
            final(self).ring == old(self).ring,
            r == old(self).retained@.contains(offset),
            !r ==> final(self).retained == old(self).retained
                && final(self).returned == old(self).returned,
            r ==> exists|i: int|
                0 <= i < old(self).retained@.len() && old(self).retained@[i] == offset
                    && final(self).retained@ =~= old(self).retained@.remove(i)
                    && final(self).returned@ =~= old(self).returned@.push(offset),
    {
        let mut i: usize = 0;
        while i < self.retained.len()
            invariant
                i <= self.retained.len(),
                *self == *old(self),
                forall|k: int| 0 <= k < i ==> old(self).retained@[k] != offset,
            decreases self.retained.len() - i,
        {
            if self.retained[i] == offset {
                self.retained.remove(i);
                self.returned.push(offset);
                return true;
            }
            i += 1;
        }
        false
    }

    /// The publisher side: pops the next offset the subscriber returned.
    pub fn reclaim(&mut self) -> (r: Option<usize>)
        ensures
            final(self).same_link(old(self)),
            old(self).wf() ==> final(self).wf(),
            final(self).ring == old(self).ring,
            final(self).retained == old(self).retained,
            old(self).returned@.len() == 0
                ==> r is None && final(self).returned == old(self).returned,
            old(self).returned@.len() > 0
                ==> r == Some(old(self).returned@[0])
                    && final(self).returned@ =~= old(self).returned@.drop_first(),
    {
        if self.returned.len() == 0 {
            None
        } else {
            let offset = self.returned.remove(0);
            assert(self.returned@ =~= old(self).returned@.drop_first());
            Some(offset)
        }
    }

    /// Hands out every offset the connection still refers to — delivered,
    /// held or returned — and forgets them. Used when the subscriber leaves
    /// or died: the publisher reclaims all of them without the peer's help.
    pub fn drain_outstanding(&mut self) -> (r: Vec<usize>)
        ensures
            final(self).same_link(old(self)),
            old(self).wf() ==> final(self).wf(),
            r@ =~= old(self).ring@ + old(self).retained@ + old(self).returned@,
            final(self).ring@ =~= Seq::<usize>::empty(),
            final(self).retained@ =~= Seq::<usize>::empty(),
            final(self).returned@ =~= Seq::<usize>::empty(),
    {
        let mut r: Vec<usize> = Vec::new();
        r.append(&mut self.ring);
        r.append(&mut self.retained);
        r.append(&mut self.returned);
        r
    }
}

} // verus!
