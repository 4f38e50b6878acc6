use crate::ordered_map::CloneView;
use crate::types::key::Key;
use crate::types::uid::EntityUid;
use vstd::prelude::*;

verus! {

#[derive(Debug, PartialEq, Eq, Hash)]
pub struct WorldPosition {
    pub frame: Key,
    pub x_mm: i64,
    pub y_mm: i64,
    pub z_mm: i64,
}

impl Clone for WorldPosition {
    fn clone(&self) -> (r: Self)
        ensures
            r == *self,
    {
        WorldPosition { frame: self.frame.clone(), x_mm: self.x_mm, y_mm: self.y_mm, z_mm: self.z_mm }
    }
}

#[derive(Debug, PartialEq, Eq)]
pub struct HostedPosition {
    pub host: EntityUid,
    pub station: Option<Key>,
    pub anchor: Option<Key>,
}

fn clone_opt_key(k: &Option<Key>) -> (r: Option<Key>)
    ensures
        r == *k,
{
    match k {
        Some(x) => Some(x.clone()),
        None => None,
    }
}

impl Clone for HostedPosition {
    fn clone(&self) -> (r: Self)
        ensures
            r == *self,
    {
        HostedPosition {
            host: self.host,
            station: clone_opt_key(&self.station),
            anchor: clone_opt_key(&self.anchor),
        }
    }
}

#[derive(Debug, PartialEq, Eq)]
pub enum SpatialPosition {
    World(WorldPosition),
    Hosted(HostedPosition),
}

impl Clone for SpatialPosition {
    fn clone(&self) -> (r: Self)
        ensures
            r == *self,
    {
        match self {
            SpatialPosition::World(w) => SpatialPosition::World(w.clone()),
            SpatialPosition::Hosted(h) => SpatialPosition::Hosted(h.clone()),
        }
    }
}

impl View for SpatialPosition {
    type V = SpatialPosition;

    open spec fn view(&self) -> SpatialPosition {
        *self
    }
}

impl CloneView for SpatialPosition {
    fn clone_view(&self) -> (r: Self) {
        self.clone()
    }
}

} // verus!
