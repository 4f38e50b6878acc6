use crate::entity::component::ComponentData;
use crate::entity::entity::Entity;
use crate::relationship::relationship::Relationship;
use crate::spatial::motion::{AngularVelocity3, Velocity3};
use crate::spatial::pose::Orientation3;
use crate::spatial::position::SpatialPosition;
use crate::types::key::Key;
use crate::types::uid::{EntityUid, RelationshipUid};
use vstd::prelude::*;

verus! {

/// One primitive change to the world state.
#[derive(Debug)]
pub enum StateMutation {
    AddEntity { entity: Entity },
    RemoveEntity { entity: EntityUid },
    SetComponent { entity: EntityUid, component: ComponentData },
    RemoveComponent { entity: EntityUid, component: Key },
    AddRelationship { relationship: Relationship },
    EndRelationship { relationship: RelationshipUid },
    SetPosition { entity: EntityUid, position: SpatialPosition },
    SetOrientation { entity: EntityUid, orientation: Orientation3 },
    SetLinearVelocity { entity: EntityUid, velocity: Velocity3 },
    SetAngularVelocity { entity: EntityUid, velocity: AngularVelocity3 },
}

} // verus!
