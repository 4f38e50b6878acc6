//! Component schemas and structural validation of component payloads.
//!
//! A schema says which component versions exist, which fields they hold,
//! in which persistence context each field may appear, and whether a JSON
//! payload matches. Battlefield rules and entity references are checked by
//! higher layers.
pub mod context;
pub mod decimal;
pub mod persistence;
pub mod json;
pub mod serde_text;
pub mod constraint;
pub mod field;
pub mod validation;
pub mod component;
pub mod versioned;
pub mod registry;
