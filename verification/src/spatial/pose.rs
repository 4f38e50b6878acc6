use crate::ordered_map::CloneView;
use crate::spatial::position::WorldPosition;
use crate::types::quantity::Angle;
use vstd::prelude::*;

verus! {

#[derive(Clone, Copy, Debug, Default, PartialEq, Eq, Structural, Hash)]
pub struct Vector3Mm {
    pub x_mm: i64,
    pub y_mm: i64,
    pub z_mm: i64,
}

#[derive(Clone, Copy, Debug, Default, PartialEq, Eq, Structural, Hash)]
pub struct Orientation3 {
    pub yaw: Angle,
    pub pitch: Angle,
    pub roll: Angle,
}

impl View for Orientation3 {
    type V = Orientation3;

    open spec fn view(&self) -> Orientation3 {
        *self
    }
}

impl CloneView for Orientation3 {
    fn clone_view(&self) -> (r: Self) {
        *self
    }
}

#[derive(Clone, Debug, Default, PartialEq, Eq)]
pub struct LocalPose {
    pub offset: Vector3Mm,
    pub orientation: Orientation3,
}

#[derive(Clone, Debug, PartialEq, Eq)]
pub struct WorldPose {
    pub position: WorldPosition,
    pub orientation: Orientation3,
}

} // verus!
