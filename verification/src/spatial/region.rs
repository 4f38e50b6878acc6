use crate::spatial::geometry::Geometry2;
use crate::types::display_name::DisplayName;
use crate::types::key::Key;
use vstd::prelude::*;

verus! {

#[derive(Clone, Debug, PartialEq, Eq)]
pub struct SpatialRegion {
    pub key: Key,
    pub name: DisplayName,
    pub frame: Key,
    pub geometry: Geometry2,
}

} // verus!
