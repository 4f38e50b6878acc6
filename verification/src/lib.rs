//! Layer 0 data model of the VBF battlefield framework: validated identity
//! and quantity types, component schemas and JSON payload validation,
//! entities and definitions, relationships and their structural rules,
//! events and an in-memory authoritative store.
pub mod text;
pub mod ordered_map;
pub mod keyed;
pub mod types;
pub mod schema;
pub mod entity;
pub mod relationship;
pub mod spatial;
pub mod information;
pub mod package;
pub mod event;
pub mod store;
pub mod compiler;
