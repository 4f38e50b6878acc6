use crate::entity::entity::{Entity, EntityView};
use crate::information::record::{InformationRecord, InformationRecordView};
use crate::ordered_map::{OrderedMap, deep_view};
use crate::relationship::relationship::{Relationship, RelationshipView};
use crate::spatial::motion::{AngularVelocity3, Velocity3};
use crate::spatial::pose::Orientation3;
use crate::spatial::position::SpatialPosition;
use crate::types::key::Key;
use crate::types::revision::StateRevision;
use crate::types::time::SimTime;
use crate::types::uid::{EntityUid, RelationshipUid};
use vstd::prelude::*;

verus! {

/// Everything the simulation holds to be true at one revision.
#[derive(Debug)]
pub struct WorldState {
    pub revision: StateRevision,
    pub sim_time: SimTime,
    pub entities: OrderedMap<EntityUid, Entity>,
    pub relationships: OrderedMap<RelationshipUid, Relationship>,
    pub positions: OrderedMap<EntityUid, SpatialPosition>,
    pub orientations: OrderedMap<EntityUid, Orientation3>,
    pub linear_velocities: OrderedMap<EntityUid, Velocity3>,
    pub angular_velocities: OrderedMap<EntityUid, AngularVelocity3>,
    pub information: OrderedMap<Key, InformationRecord>,
}

/// A world state as contracts see it.
pub struct WorldStateView {
    pub revision: u64,
    pub sim_time: i64,
    pub entities: Map<u128, EntityView>,
    pub relationships: Map<u128, RelationshipView>,
    pub positions: Map<u128, SpatialPosition>,
    pub orientations: Map<u128, Orientation3>,
    pub linear_velocities: Map<u128, Velocity3>,
    pub angular_velocities: Map<u128, AngularVelocity3>,
    pub information: Map<Seq<char>, InformationRecordView>,
}

impl View for WorldState {
    type V = WorldStateView;

    open spec fn view(&self) -> WorldStateView {
        WorldStateView {
            revision: self.revision@,
            sim_time: self.sim_time@,
            entities: deep_view(self.entities@),
            relationships: deep_view(self.relationships@),
            positions: deep_view(self.positions@),
            orientations: deep_view(self.orientations@),
            linear_velocities: deep_view(self.linear_velocities@),
            angular_velocities: deep_view(self.angular_velocities@),
            information: deep_view(self.information@),
        }
    }
}

/// The state before anything has happened: revision zero, time zero,
/// nothing in it.
pub open spec fn initial_view() -> WorldStateView {
    WorldStateView {
        revision: 0,
        sim_time: 0,
        entities: Map::empty(),
        relationships: Map::empty(),
        positions: Map::empty(),
        orientations: Map::empty(),
        linear_velocities: Map::empty(),
        angular_velocities: Map::empty(),
        information: Map::empty(),
    }
}

impl Default for WorldState {
    fn default() -> (r: Self)
        ensures
            r@ == initial_view(),
    {
        let r = WorldState {
            revision: StateRevision::initial(),
            sim_time: SimTime::zero(),
            entities: OrderedMap::new(),
            relationships: OrderedMap::new(),
            positions: OrderedMap::new(),
            orientations: OrderedMap::new(),
            linear_velocities: OrderedMap::new(),
            angular_velocities: OrderedMap::new(),
            information: OrderedMap::new(),
        };
        assert(r@.entities =~= Map::<u128, EntityView>::empty());
        assert(r@.relationships =~= Map::<u128, RelationshipView>::empty());
        assert(r@.positions =~= Map::<u128, SpatialPosition>::empty());
        assert(r@.orientations =~= Map::<u128, Orientation3>::empty());
        assert(r@.linear_velocities =~= Map::<u128, Velocity3>::empty());
        assert(r@.angular_velocities =~= Map::<u128, AngularVelocity3>::empty());
        assert(r@.information =~= Map::<Seq<char>, InformationRecordView>::empty());
        r
    }
}

impl Clone for WorldState {
    fn clone(&self) -> (r: Self)
        ensures
            r@ == self@,
    {
        WorldState {
            revision: self.revision,
            sim_time: self.sim_time,
            entities: self.entities.duplicate(),
            relationships: self.relationships.duplicate(),
            positions: self.positions.duplicate(),
            orientations: self.orientations.duplicate(),
            linear_velocities: self.linear_velocities.duplicate(),
            angular_velocities: self.angular_velocities.duplicate(),
            information: self.information.duplicate(),
        }
    }
}

} // verus!
