//! Publisher-side core of a zero-copy publish-subscribe transport.
//!
//! A publisher loans fixed-size chunks of a data segment to its user, stamps a
//! sample header into each chunk, and hands chunk offsets to every connected
//! subscriber through bounded FIFO rings. Chunks are reference counted: one
//! count per outstanding loan, per history entry and per offset a subscriber
//! ring or subscriber still holds. The central invariant, proved for every
//! operation, is that the counters match those edges exactly, so no chunk is
//! ever leaked or freed twice.

pub mod counting;
pub mod types;
pub mod errors;
pub mod connection;
pub mod registry;
pub mod history;
pub mod data_segment;
pub mod publisher;
pub mod header;
