//! Event-sourced aggregate persistence: version stamping of new events,
//! replay of a stream into an aggregate state, the persisted document form of
//! an event record, and an in-memory event log that enforces the ordering and
//! optimistic-concurrency rules of a store.

pub mod record;
pub mod replay;
pub mod memory;
pub mod laws;
pub mod codec;
