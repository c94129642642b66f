//! Verified core of a multi-room chat relay.
//!
//! The library models the realtime message relay of a chat server: the
//! per-connection supervisor and its two workers (inbound writer and
//! outbound forwarder), the JSON wire format that messages travel in,
//! the durable message store with paginated history, and the
//! publish/subscribe fan-out across sessions of a room.

pub mod codec;
pub mod hub;
pub mod numfmt;
pub mod pages;
pub mod relay;
pub mod store;
pub mod supervisor;
pub mod topic;
pub mod types;
pub mod users;
