//! Compilation of an authored layer-0 package into its initial world state.
pub mod source;
pub mod compiled;
