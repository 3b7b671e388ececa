//! An in-memory record store with per-record engagement counters, and the
//! request types of a small todo service.

pub mod laws;
pub mod record;
pub mod sources;
pub mod store;
pub mod todo;
