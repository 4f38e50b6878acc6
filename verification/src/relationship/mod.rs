//! First-class relationship records.
//!
//! Relationship meaning is data-driven: rules packages register versioned
//! relationship schemas, and this module owns the structural substrate that
//! makes relationships safe to store and validate.
pub mod relationship;
pub mod schema;
pub mod registry;
pub mod catalog;
pub mod validation;
pub mod active;
