//! Events: what happened, in what order, and which state changes it carries.
pub mod envelope;
pub mod event_type;
pub mod mutation;
pub mod origin;
pub mod participant;
