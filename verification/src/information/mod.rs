//! What an entity knows, how well, and from where.
pub mod epistemic;
pub mod provenance;
pub mod record;
