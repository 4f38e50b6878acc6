use crate::types::key::Key;
use crate::types::uid::EntityUid;
use vstd::prelude::*;

verus! {

/// One entity named by an event, in a role.
#[derive(Debug, PartialEq, Eq)]
pub struct EventParticipant {
    pub role: Key,
    pub entity: EntityUid,
}

impl Clone for EventParticipant {
    fn clone(&self) -> (r: Self)
        ensures
            r == *self,
    {
        EventParticipant { role: self.role.clone(), entity: self.entity }
    }
}

impl EventParticipant {
    pub fn new(role: Key, entity: EntityUid) -> (r: Self)
        ensures
            r.role == role,
            r.entity == entity,
    {
        EventParticipant { role, entity }
    }
}

} // verus!
