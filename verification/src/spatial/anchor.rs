use crate::ordered_map::OrderedMap;
use crate::spatial::pose::LocalPose;
use crate::types::key::Key;
use crate::types::uid::{DefinitionUid, EntityUid};
use vstd::prelude::*;

verus! {

/// A named point on a definition, at a pose relative to its host.
#[derive(Clone, Debug, PartialEq, Eq)]
pub struct SpatialAnchorDefinition {
    pub key: Key,
    pub local_pose: LocalPose,
}

impl SpatialAnchorDefinition {
    pub fn new(key: Key, local_pose: LocalPose) -> (r: Self)
        ensures
            r.key == key,
            r.local_pose == local_pose,
    {
        SpatialAnchorDefinition { key, local_pose }
    }
}

/// The anchors of one definition, by key.
#[derive(Debug)]
pub struct DefinitionAnchors {
    pub definition: DefinitionUid,
    pub anchors: OrderedMap<Key, SpatialAnchorDefinition>,
}

impl DefinitionAnchors {
    pub fn new(definition: DefinitionUid) -> (r: Self)
        ensures
            r.definition == definition,
            r.anchors@ == Map::<Seq<char>, SpatialAnchorDefinition>::empty(),
    {
        DefinitionAnchors { definition, anchors: OrderedMap::new() }
    }

    /// Files an anchor under its key, returning the one it replaces.
    pub fn insert(&mut self, anchor: SpatialAnchorDefinition) -> (r: Option<SpatialAnchorDefinition>)
        ensures
            final(self).definition == old(self).definition,
            final(self).anchors@ == old(self).anchors@.insert(anchor.key@, anchor),
            match r {
                Some(a) => old(self).anchors@.contains_key(anchor.key@) && a == old(self).anchors@[anchor.key@],
                None => !old(self).anchors@.contains_key(anchor.key@),
            },
    {
        let key = anchor.key.clone();
        self.anchors.insert(key, anchor)
    }

    /// The anchor filed under this key.
    pub fn get(&self, key: &str) -> (r: Option<&SpatialAnchorDefinition>)
        ensures
            match r {
                Some(a) => self.anchors@.contains_key(key@) && *a == self.anchors@[key@],
                None => !self.anchors@.contains_key(key@),
            },
    {
        crate::types::key::lookup_text(&self.anchors, key)
    }
}

/// An anchor on one hosting entity.
#[derive(Clone, Debug, PartialEq, Eq)]
pub struct HostedAnchorRef {
    pub host: EntityUid,
    pub anchor: Key,
}

} // verus!
