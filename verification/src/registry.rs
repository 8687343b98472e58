//! The dynamic, service-level registries the publisher core works against:
//! the set of subscribers currently attached to the service, read by the
//! connection reconciler through a versioned snapshot, and the bounded set of
//! registered publishers.
//!
//! In the running system both live in a lock-free shared-memory container
//! written by other processes; the core only ever observes them through
//! snapshots. They are held here as plain slot arrays with a version so that
//! the reconciliation protocol against them is provable.

use vstd::prelude::*;

use crate::types::{PublisherDetails, SubscriberDetails};

verus! {

/// The subscriber set as the publisher last observed it, together with the
/// version cursor used to detect changes cheaply.
pub struct SubscriberListState {
    pub version: u64,
    pub slots: Vec<Option<SubscriberDetails>>,
}

/// The live subscriber set of the service. Each attached subscriber occupies
/// a stable slot; every change bumps the version.
pub struct SubscriberList {
    pub version: u64,
    pub slots: Vec<Option<SubscriberDetails>>,
}

impl SubscriberList {
    /// An empty list with `capacity` slots, one per possible subscriber.
    pub fn new(capacity: usize) -> (r: SubscriberList)
        ensures
            r.version == 0,
            r.slots@.len() == capacity,
            forall|i: int| 0 <= i < capacity ==> r.slots@[i] is None,
    {
        let mut slots: Vec<Option<SubscriberDetails>> = Vec::new();
        let mut i: usize = 0;
        while i < capacity
            invariant
                i <= capacity,
                slots@.len() == i,
                forall|k: int| 0 <= k < i ==> slots@[k] is None,
            decreases capacity - i,
        {
            slots.push(None);
            i += 1;
        }
        SubscriberList { version: 0, slots }
    }

    /// Attaches a subscriber at the first free slot and returns it; `None`
    /// when every slot is taken.
    pub fn add(&mut self, details: SubscriberDetails) -> (r: Option<usize>)
        requires
            old(self).version < u64::MAX,
        ensures
            r is None ==> *final(self) == *old(self) && (forall|i: int|
                0 <= i < old(self).slots@.len() ==> old(self).slots@[i] is Some),
            r is Some ==> {
                let i = r->Some_0 as int;
                &&& 0 <= i < old(self).slots@.len()
                &&& old(self).slots@[i] is None
                &&& final(self).slots@ =~= old(self).slots@.update(i, Some(details))
                &&& final(self).version == old(self).version + 1
            },
    {
        let mut i: usize = 0;
        while i < self.slots.len()
            invariant
                i <= self.slots.len(),
                *self == *old(self),
                old(self).version < u64::MAX,
                forall|k: int| 0 <= k < i ==> old(self).slots@[k] is Some,
            decreases self.slots.len() - i,
        {
            if self.slots[i].is_none() {
                self.slots.set(i, Some(details));
                self.version = self.version + 1;
                return Some(i);
            }
            i += 1;
        }
        None
    }

    /// Detaches the subscriber at `slot`.
    pub fn remove(&mut self, slot: usize) -> (r: Option<SubscriberDetails>)
        requires
            old(self).version < u64::MAX,
            slot < old(self).slots@.len(),
        ensures
            r == old(self).slots@[slot as int],
            final(self).slots@ =~= old(self).slots@.update(slot as int, None),
            final(self).version == old(self).version + 1,
    {
        let details = self.slots[slot];
        self.slots.set(slot, None);
        self.version = self.version + 1;
        details
    }

    /// A full snapshot of the current set, to be kept as the observer's
    /// cursor.
    pub fn get_state(&self) -> (r: SubscriberListState)
        ensures
            r.version == self.version,
            r.slots@ =~= self.slots@,
    {
        let mut slots: Vec<Option<SubscriberDetails>> = Vec::new();
        let mut i: usize = 0;
        while i < self.slots.len()
            invariant
                i <= self.slots@.len(),
                slots@.len() == i,
                forall|k: int| 0 <= k < i ==> slots@[k] == self.slots@[k],
            decreases self.slots.len() - i,
        {
            slots.push(self.slots[i]);
            i += 1;
        }
        SubscriberListState { version: self.version, slots }
    }

    /// Refreshes an observer's snapshot. Returns whether the observed set had
    /// changed since the snapshot was taken; the snapshot is rewritten only
    /// then.
    pub fn update_state(&self, state: &mut SubscriberListState) -> (r: bool)
        ensures
            r == (old(state).version != self.version),
            !r ==> *final(state) == *old(state),
            r ==> final(state).version == self.version && final(state).slots@ =~= self.slots@,
    {
        if state.version != self.version {
            *state = self.get_state();
            true
        } else {
            false
        }
    }
}

/// The bounded set of publishers registered with the service.
pub struct PublisherRegistry {
    pub slots: Vec<Option<PublisherDetails>>,
}

impl PublisherRegistry {
    /// An empty registry with room for `capacity` publishers.
    pub fn new(capacity: usize) -> (r: PublisherRegistry)
        ensures
            r.slots@.len() == capacity,
            forall|i: int| 0 <= i < capacity ==> r.slots@[i] is None,
    {
        let mut slots: Vec<Option<PublisherDetails>> = Vec::new();
        let mut i: usize = 0;
        while i < capacity
            invariant
                i <= capacity,
                slots@.len() == i,
                forall|k: int| 0 <= k < i ==> slots@[k] is None,
            decreases capacity - i,
        {
            slots.push(None);
            i += 1;
        }
        PublisherRegistry { slots }
    }

    /// Registers a publisher and returns its handle; `None` when the registry
    /// is full.
    pub fn add_publisher_id(&mut self, details: PublisherDetails) -> (r: Option<usize>)
        ensures
            r is None ==> *final(self) == *old(self) && (forall|i: int|
                0 <= i < old(self).slots@.len() ==> old(self).slots@[i] is Some),
            r is Some ==> {
                let i = r->Some_0 as int;
                &&& 0 <= i < old(self).slots@.len()
                &&& old(self).slots@[i] is None
                &&& final(self).slots@ =~= old(self).slots@.update(i, Some(details))
            },
    {
        let mut i: usize = 0;
        while i < self.slots.len()
            invariant
                i <= self.slots.len(),
                *self == *old(self),
                forall|k: int| 0 <= k < i ==> old(self).slots@[k] is Some,
            decreases self.slots.len() - i,
        {
            if self.slots[i].is_none() {
                self.slots.set(i, Some(details));
                return Some(i);
            }
            i += 1;
        }
        None
    }

    /// Releases a handle taken with [`PublisherRegistry::add_publisher_id`].
    pub fn release_publisher_handle(&mut self, handle: usize)
        requires
            handle < old(self).slots@.len(),
        ensures
            final(self).slots@ =~= old(self).slots@.update(handle as int, None),
    {
        self.slots.set(handle, None);
    }
}

} // verus!
