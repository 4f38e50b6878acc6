use crate::entity::definition::Definition;
use crate::entity::entity::Entity;
use crate::information::record::InformationRecord;
use crate::package::manifest::PackageManifest;
use crate::relationship::relationship::Relationship;
use crate::spatial::frame::CoordinateFrame;
use crate::spatial::grid::GridOverlay;
use crate::spatial::region::SpatialRegion;
use vstd::prelude::*;

verus! {

/// Everything a layer-0 package authors.
#[derive(Debug)]
pub struct Layer0Source {
    pub manifest: PackageManifest,
    pub definitions: Vec<Definition>,
    pub entities: Vec<Entity>,
    pub relationships: Vec<Relationship>,
    pub coordinate_frames: Vec<CoordinateFrame>,
    pub regions: Vec<SpatialRegion>,
    pub grids: Vec<GridOverlay>,
    pub information: Vec<InformationRecord>,
}

} // verus!
