//! The authoritative in-memory world state and the commit of events to it.
pub mod state;
pub mod transaction;
pub mod commit;
pub mod memory;
