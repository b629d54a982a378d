//! A real-time, namespaced key-value broker core.
//!
//! Clients attach to a namespace over a persistent connection, subscribe to
//! named stores (mutable string values), push updates, and receive push
//! notifications when a subscribed value changes. This crate holds the
//! verified engine: the subscriber-set data structure, the store table, the
//! connection-pool bookkeeping, and the dispatcher state machine that applies
//! client messages to stores. Transport, encoding, and task plumbing live
//! outside the library and drive it through these types.

pub mod messages;
pub mod namespace;
pub mod pool;
pub mod socket;
pub mod store;
pub mod unique;
