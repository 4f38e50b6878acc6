use crate::types::display_name::DisplayName;
use crate::types::key::Key;
use vstd::prelude::*;

verus! {

#[derive(Clone, Copy, Debug, PartialEq, Eq, Structural)]
pub enum AxisDirection {
    East,
    West,
    North,
    South,
    Up,
    Down,
}

#[derive(Clone, Debug, PartialEq, Eq)]
pub struct CoordinateFrame {
    pub key: Key,
    pub name: DisplayName,
    pub x_axis: AxisDirection,
    pub y_axis: AxisDirection,
    pub z_axis: AxisDirection,
}

} // verus!
