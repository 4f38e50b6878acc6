//! Package manifests and their dependencies.
pub mod dependency;
pub mod manifest;
