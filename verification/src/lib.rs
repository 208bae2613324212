//! Peer-to-peer state synchronisation for a small group of game clients.
//!
//! Every client keeps a registry of the remote peers it has heard from,
//! exchanges compact binary messages with them, and decides without any
//! coordinator which peer simulates the shared entities of a shard.

pub mod authority;
pub mod codec;
pub mod dedup;
pub mod inbound;
pub mod liveness;
pub mod message;
pub mod outbound;
pub mod registry;
pub mod scalar;
pub mod session;
pub mod wire;
