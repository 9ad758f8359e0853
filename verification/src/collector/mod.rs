//! Batching of serialized events for a collector service and the wire format
//! of its messages.
pub mod client;
pub mod wire;
pub mod server;
