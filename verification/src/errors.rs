//! Failures surfaced by the publisher port.

use vstd::prelude::*;

verus! {

/// Failure while creating a publisher port.
#[derive(Clone, Copy, Debug, PartialEq, Eq, Structural)]
pub enum PublisherCreateError {
    ExceedsMaxSupportedPublishers,
    UnableToCreateDataSegment,
}

/// Failure while loaning a chunk from the data segment.
#[derive(Clone, Copy, Debug, PartialEq, Eq, Structural, Hash)]
pub enum PublisherLoanError {
    OutOfMemory,
    ExceedsMaxLoanedChunks,
    ExceedsMaxLoanSize,
    InternalFailure,
}

/// Failure while rewiring the subscriber connection table.
#[derive(Clone, Copy, Debug, PartialEq, Eq, Structural)]
pub enum ConnectionFailure {
    UnableToEstablishConnection,
}

/// Failure while sending a sample.
#[derive(Clone, Copy, Debug, PartialEq, Eq, Structural)]
pub enum PublisherSendError {
    ConnectionBrokenSincePublisherNoLongerExists,
    ConnectionCorrupted,
    LoanError(PublisherLoanError),
    ConnectionError(ConnectionFailure),
}

/// Failure reported by a connection ring on enqueue.
#[derive(Clone, Copy, Debug, PartialEq, Eq, Structural)]
pub enum ZeroCopySendError {
    ReceiveBufferFull,
    UsedChunkListFull,
    ConnectionCorrupted,
}

} // verus!
