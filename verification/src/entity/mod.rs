//! Canonical entity and definition records.
//!
//! Component payloads are never anonymous JSON: every payload carries an
//! exact schema reference, and validation occurs in definition, initial
//! state or runtime state context as appropriate. Actors, assets, processes,
//! conditions and objectives remain classes within one entity identity
//! universe.
pub mod class;
pub mod component;
pub mod validation;
pub mod definition;
pub mod entity;
pub mod catalog;
