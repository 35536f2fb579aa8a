//! Endpoints: their specifications, their filters and the logic of each transport.

pub mod backoff;
pub mod defaults;
pub mod events;
pub mod filters;
pub mod id;
pub mod identity_flags;
pub mod seq_tracker;
pub mod serial;
pub mod session;
pub mod spawn;
pub mod spec;
pub mod stats;
pub mod tcp;
pub mod tx_queue;
pub mod udp;
