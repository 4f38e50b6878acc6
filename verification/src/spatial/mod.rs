//! Continuous spatial primitives.
//!
//! Hex grids are optional overlays. World position is expressed in
//! coordinate frames and integer millimetres.
pub mod anchor;
pub mod frame;
pub mod geometry;
pub mod grid;
pub mod motion;
pub mod network;
pub mod pose;
pub mod position;
pub mod region;
