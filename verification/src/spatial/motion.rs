use crate::ordered_map::CloneView;
use crate::spatial::pose::WorldPose;
use crate::types::time::SimTime;
use vstd::prelude::*;

verus! {

#[derive(Clone, Copy, Debug, Default, PartialEq, Eq, Structural, Hash)]
pub struct Velocity3 {
    pub x_mm_per_second: i64,
    pub y_mm_per_second: i64,
    pub z_mm_per_second: i64,
}

impl View for Velocity3 {
    type V = Velocity3;

    open spec fn view(&self) -> Velocity3 {
        *self
    }
}

impl CloneView for Velocity3 {
    fn clone_view(&self) -> (r: Self) {
        *self
    }
}

#[derive(Clone, Copy, Debug, Default, PartialEq, Eq, Structural, Hash)]
pub struct AngularVelocity3 {
    pub yaw_millidegrees_per_second: i64,
    pub pitch_millidegrees_per_second: i64,
    pub roll_millidegrees_per_second: i64,
}

impl View for AngularVelocity3 {
    type V = AngularVelocity3;

    open spec fn view(&self) -> AngularVelocity3 {
        *self
    }
}

impl CloneView for AngularVelocity3 {
    fn clone_view(&self) -> (r: Self) {
        *self
    }
}

#[derive(Clone, Debug, PartialEq, Eq)]
pub struct MotionSample {
    pub sim_time: SimTime,
    pub pose: WorldPose,
    pub linear_velocity: Velocity3,
    pub angular_velocity: AngularVelocity3,
}

} // verus!
