use crate::types::key::Key;
use vstd::prelude::*;

verus! {

#[derive(Clone, Copy, Debug, PartialEq, Eq, Structural)]
pub enum GridRole {
    Player,
    Referee,
    Rules,
    Debug,
}

#[derive(Clone, Copy, Debug, PartialEq, Eq, Structural)]
pub enum HexOrientation {
    FlatTop,
    PointyTop,
}

#[derive(Clone, Debug, PartialEq, Eq)]
pub struct GridOverlay {
    pub key: Key,
    pub frame: Key,
    pub role: GridRole,
    pub orientation: HexOrientation,
    pub nominal_scale_mm: u64,
    pub rows: u32,
    pub columns: u32,
}

} // verus!
