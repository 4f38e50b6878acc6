//! Relationship records and their participants.
use crate::relationship::schema::RelationshipSchemaRef;
use crate::schema::json::{JsonData, JsonValue};
use crate::types::key::Key;
use crate::types::time::SimTime;
use crate::types::uid::{EntityUid, RelationshipUid};
use crate::keyed::Keyed;
use vstd::prelude::*;

verus! {

/// One entity taking part in a relationship, in a role and possibly in a
/// slot of the host.
#[derive(Debug)]
pub struct RelationshipParticipant {
    pub entity: EntityUid,
    pub role: Key,
    pub slot: Option<Key>,
}

impl Clone for RelationshipParticipant {
    fn clone(&self) -> (r: Self)
        ensures
            r == *self,
    {
        let slot = match &self.slot {
            Some(s) => Some(s.clone()),
            None => None,
        };
        RelationshipParticipant { entity: self.entity, role: self.role.clone(), slot }
    }
}

impl RelationshipParticipant {
    pub fn new(entity: EntityUid, role: Key) -> (r: Self)
        ensures
            r.entity == entity,
            r.role == role,
            r.slot is None,
    {
        RelationshipParticipant { entity, role, slot: None }
    }

    pub fn in_slot(self, slot: Key) -> (r: Self)
        ensures
            r.entity == self.entity,
            r.role == self.role,
            r.slot == Some(slot),
    {
        let mut p = self;
        p.slot = Some(slot);
        p
    }
}

/// A copy of a participant list, item for item.
pub fn clone_participants(ps: &Vec<RelationshipParticipant>) -> (r: Vec<RelationshipParticipant>)
    ensures
        r@ == ps@,
{
    let n = ps.len();
    let mut out: Vec<RelationshipParticipant> = Vec::new();
    for i in 0..n
        invariant
            n == ps@.len(),
            out@ == ps@.subrange(0, i as int),
    {
        out.push(ps[i].clone());
        assert(out@ =~= ps@.subrange(0, i + 1));
    }
    assert(out@ =~= ps@);
    out
}

#[derive(Debug)]
pub struct Relationship {
    pub uid: RelationshipUid,
    pub key: Key,
    pub schema: RelationshipSchemaRef,
    pub participants: Vec<RelationshipParticipant>,
    pub properties: JsonValue,
    pub valid_from: Option<SimTime>,
    pub valid_to: Option<SimTime>,
}

/// A relationship as contracts see it.
pub struct RelationshipView {
    pub uid: u128,
    pub key: Seq<char>,
    pub schema: (Seq<char>, u32),
    pub participants: Seq<RelationshipParticipant>,
    pub properties: JsonData,
    pub valid_from: Option<SimTime>,
    pub valid_to: Option<SimTime>,
}

impl View for Relationship {
    type V = RelationshipView;

    open spec fn view(&self) -> RelationshipView {
        RelationshipView {
            uid: self.uid@,
            key: self.key@,
            schema: self.schema@,
            participants: self.participants@,
            properties: self.properties@,
            valid_from: self.valid_from,
            valid_to: self.valid_to,
        }
    }
}

impl Clone for Relationship {
    fn clone(&self) -> (r: Self)
        ensures
            r@ == self@,
            r.uid == self.uid,
            r.key == self.key,
            r.schema == self.schema,
            r.participants@ == self.participants@,
            r.valid_from == self.valid_from,
            r.valid_to == self.valid_to,
    {
        Relationship {
            uid: self.uid,
            key: self.key.clone(),
            schema: self.schema.clone(),
            participants: clone_participants(&self.participants),
            properties: self.properties.clone(),
            valid_from: self.valid_from,
            valid_to: self.valid_to,
        }
    }
}

impl crate::ordered_map::CloneView for Relationship {
    fn clone_view(&self) -> (r: Self) {
        self.clone()
    }
}

impl Keyed<RelationshipUid> for Relationship {
    open spec fn uid_of(&self) -> u128 {
        self.uid@
    }

    open spec fn key_of(&self) -> Seq<char> {
        self.key@
    }

    fn uid(&self) -> (r: RelationshipUid) {
        self.uid
    }

    fn key(&self) -> (r: &Key) {
        &self.key
    }
}

/// Whether a relationship with these bounds is in force at `time`: the
/// interval includes its start and excludes its end.
pub open spec fn active_at_spec(valid_from: Option<SimTime>, valid_to: Option<SimTime>, time: SimTime) -> bool {
    &&& (valid_from matches Some(f) ==> f@ <= time@)
    &&& (valid_to matches Some(t) ==> time@ < t@)
}

/// Whether some participant is `entity`.
pub open spec fn involves_spec(participants: Seq<RelationshipParticipant>, entity: u128) -> bool {
    exists|i: int| 0 <= i < participants.len() && (#[trigger] participants[i]).entity@ == entity
}

/// The participants in `role`, in order.
pub open spec fn in_role(participants: Seq<RelationshipParticipant>, role: Seq<char>) -> Seq<
    RelationshipParticipant,
> {
    participants.filter(|p: RelationshipParticipant| p.role@ == role)
}

impl Relationship {
    pub fn new(
        uid: RelationshipUid,
        key: Key,
        schema: RelationshipSchemaRef,
        participants: Vec<RelationshipParticipant>,
        properties: JsonValue,
    ) -> (r: Self)
        ensures
            r.uid == uid,
            r.key == key,
            r.schema == schema,
            r.participants == participants,
            r.properties == properties,
            r.valid_from is None,
            r.valid_to is None,
    {
        Relationship { uid, key, schema, participants, properties, valid_from: None, valid_to: None }
    }

    pub fn with_validity(self, valid_from: Option<SimTime>, valid_to: Option<SimTime>) -> (r: Self)
        ensures
            r.uid == self.uid,
            r.key == self.key,
            r.schema == self.schema,
            r.participants == self.participants,
            r.properties == self.properties,
            r.valid_from == valid_from,
            r.valid_to == valid_to,
    {
        let mut r = self;
        r.valid_from = valid_from;
        r.valid_to = valid_to;
        r
    }

    pub fn involves(&self, entity: EntityUid) -> (r: bool)
        ensures
            r == involves_spec(self.participants@, entity@),
    {
        let n = self.participants.len();
        for i in 0..n
            invariant
                n == self.participants@.len(),
                forall|j: int| 0 <= j < i ==> (#[trigger] self.participants@[j]).entity@ != entity@,
        {
            if self.participants[i].entity.as_uuid() == entity.as_uuid() {
                return true;
            }
        }
        false
    }

    /// The participants in this role, in order.
    pub fn participants_in_role(&self, role: &str) -> (r: Vec<&RelationshipParticipant>)
        ensures
            r@.map_values(|p: &RelationshipParticipant| *p) == in_role(self.participants@, role@),
    {
        let n = self.participants.len();
        let ghost all = self.participants@;
        let mut out: Vec<&RelationshipParticipant> = Vec::new();
        for i in 0..n
            invariant
                n == all.len(),
                all == self.participants@,
                out@.map_values(|p: &RelationshipParticipant| *p) == in_role(all.subrange(0, i as int), role@),
        {
            proof {
                assert(all.subrange(0, i + 1).drop_last() =~= all.subrange(0, i as int));
                reveal(Seq::filter);
            }
            let p = &self.participants[i];
            let ghost before = out@;
            if crate::text::str_eq(p.role.as_str(), role) {
                out.push(p);
                assert(out@.map_values(|p: &RelationshipParticipant| *p) =~= before.map_values(
                    |p: &RelationshipParticipant| *p,
                ).push(*p));
            }
        }
        assert(all.subrange(0, n as int) =~= all);
        out
    }

    /// Relationship intervals include their start and exclude their end,
    /// so an old assignment may end at the instant its replacement begins
    /// without the two overlapping.
    pub fn active_at(&self, time: SimTime) -> (r: bool)
        ensures
            r == active_at_spec(self.valid_from, self.valid_to, time),
    {
        let has_started = match self.valid_from {
            Some(f) => !time.lt(f),
            None => true,
        };
        let has_not_ended = match self.valid_to {
            Some(t) => time.lt(t),
            None => true,
        };
        has_started && has_not_ended
    }
}

/// A relationship that ends at the instant another begins is never in
/// force at the same time as it.
pub proof fn law_handoff_does_not_overlap(
    old_from: Option<SimTime>,
    end: SimTime,
    new_to: Option<SimTime>,
    time: SimTime,
)
    ensures
        !(active_at_spec(old_from, Some(end), time) && active_at_spec(Some(end), new_to, time)),
{
}

} // verus!
