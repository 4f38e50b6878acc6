use crate::ordered_map::OrderedMap;
use crate::types::key::Key;
use vstd::prelude::*;

verus! {

#[derive(Clone, Debug, PartialEq, Eq)]
pub struct NetworkNode {
    pub key: Key,
    pub x_mm: i64,
    pub y_mm: i64,
    pub z_mm: i64,
}

#[derive(Clone, Debug, PartialEq, Eq)]
pub struct NetworkEdge {
    pub key: Key,
    pub from: Key,
    pub to: Key,
    pub length_mm: u64,
}

#[derive(Debug)]
pub struct Network {
    pub key: Option<Key>,
    pub nodes: OrderedMap<Key, NetworkNode>,
    pub edges: OrderedMap<Key, NetworkEdge>,
}

impl Default for Network {
    fn default() -> (r: Self)
        ensures
            r.key is None,
            r.nodes@ == Map::<Seq<char>, NetworkNode>::empty(),
            r.edges@ == Map::<Seq<char>, NetworkEdge>::empty(),
    {
        Network { key: None, nodes: OrderedMap::new(), edges: OrderedMap::new() }
    }
}

} // verus!
