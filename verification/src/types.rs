//! Identifiers, configuration and layout arithmetic shared by the publisher
//! core.

use vstd::prelude::*;

verus! {

/// Process-wide unique identifier of a publisher port, stamped into every
/// sample header.
#[derive(Clone, Copy, Debug, PartialEq, Eq, Structural, Hash)]
pub struct UniquePublisherId {
    pub value: u128,
}

/// Process-wide unique identifier of a subscriber port.
#[derive(Clone, Copy, Debug, PartialEq, Eq, Structural, Hash)]
pub struct UniqueSubscriberId {
    pub value: u128,
}

/// What a subscriber publishes about itself in the dynamic service registry.
#[derive(Clone, Copy, Debug, PartialEq, Eq, Structural)]
pub struct SubscriberDetails {
    pub port_id: UniqueSubscriberId,
    /// Capacity of the subscriber's receive ring.
    pub buffer_size: usize,
}

/// What a publisher registers about itself in the dynamic service registry.
#[derive(Clone, Copy, Debug, PartialEq, Eq, Structural)]
pub struct PublisherDetails {
    pub publisher_id: UniquePublisherId,
    pub number_of_samples: usize,
    pub max_slice_len: usize,
}

/// Behaviour of `send` towards a subscriber whose ring is full on a service
/// without overflow.
#[derive(Clone, Copy, Debug, PartialEq, Eq, Structural)]
pub enum UnableToDeliverStrategy {
    Block,
    DiscardSample,
}

/// Verdict of the degradation policy on a per-subscriber fault.
#[derive(Clone, Copy, Debug, PartialEq, Eq, Structural)]
pub enum DegrationAction {
    Ignore,
    Warn,
    Fail,
}

/// Per-publisher configuration chosen at port creation.
#[derive(Clone, Copy, Debug, PartialEq, Eq, Structural)]
pub struct LocalPublisherConfig {
    /// Bound on chunks loaned to the user at the same time.
    pub max_loaned_samples: usize,
    /// Bound on the element count of a loaned slice.
    pub max_slice_len: usize,
    pub unable_to_deliver_strategy: UnableToDeliverStrategy,
    /// Verdict applied to per-subscriber faults; `None` merely logs.
    pub degration_action: Option<DegrationAction>,
}

/// Service-level configuration agreed between all ports of the service.
#[derive(Clone, Copy, Debug, PartialEq, Eq, Structural)]
pub struct StaticConfig {
    /// Number of recently sent chunk offsets replayed to late subscribers.
    pub history_size: usize,
    pub max_subscribers: usize,
    pub max_publishers: usize,
    /// Largest receive ring a subscriber may ask for; bounds segment sizing.
    pub subscriber_max_buffer_size: usize,
    /// Whether a full subscriber ring displaces its oldest entry.
    pub enable_safe_overflow: bool,
    /// Size in bytes of one payload element of the service's type.
    pub type_size: usize,
    /// Alignment in bytes of the service's payload type.
    pub type_align: usize,
}

impl StaticConfig {
    /// The configuration makes sense: a payload element occupies at least one
    /// byte and alignment is positive.
    pub open spec fn wf(&self) -> bool {
        self.type_size >= 1 && self.type_align >= 1
    }
}

/// Size and alignment of a payload, written into every sample header.
#[derive(Clone, Copy, Debug, PartialEq, Eq, Structural)]
pub struct PayloadLayout {
    pub size: u64,
    pub align: u64,
}

/// Number of bytes occupied by the sample header at the start of each chunk.
pub const SAMPLE_HEADER_SIZE: usize = 32;

/// `v` rounded up to the next multiple of `align`.
pub open spec fn spec_round_up(v: int, align: int) -> int {
    if v % align == 0 {
        v
    } else {
        (v / align + 1) * align
    }
}

/// Byte size of a chunk holding `n` payload elements: the header, padding up
/// to the payload alignment, then the payload itself.
pub open spec fn spec_sample_size(cfg: StaticConfig, n: int) -> int {
    spec_round_up(SAMPLE_HEADER_SIZE as int, cfg.type_align as int) + cfg.type_size * n
}

/// Byte size of the payload of `n` elements.
pub open spec fn spec_payload_size(cfg: StaticConfig, n: int) -> int {
    cfg.type_size * n
}

} // verus!
