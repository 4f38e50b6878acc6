use vstd::prelude::*;

verus! {

#[derive(Clone, Copy, Debug, PartialEq, Eq, Structural, Hash)]
pub struct Point2 {
    pub x_mm: i64,
    pub y_mm: i64,
}

#[derive(Clone, Debug, PartialEq, Eq)]
pub enum Geometry2 {
    Point { point: Point2 },
    LineString { points: Vec<Point2> },
    Polygon { exterior: Vec<Point2> },
}

} // verus!
