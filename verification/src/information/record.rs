use crate::information::epistemic::{EpistemicValue, EpistemicValueView};
use crate::information::provenance::InformationSource;
use crate::ordered_map::{CloneView, OrderedMap, deep_view};
use crate::types::key::Key;
use crate::types::time::SimTime;
use crate::types::uid::EntityUid;
use vstd::prelude::*;

verus! {

#[derive(Debug, PartialEq, Eq)]
pub enum InformationSubject {
    Entity { entity: EntityUid },
    KeyedRecord { key: Key },
}

impl Clone for InformationSubject {
    fn clone(&self) -> (r: Self)
        ensures
            r == *self,
    {
        match self {
            InformationSubject::Entity { entity } => InformationSubject::Entity { entity: *entity },
            InformationSubject::KeyedRecord { key } => InformationSubject::KeyedRecord { key: key.clone() },
        }
    }
}

/// What one entity holds about one subject.
#[derive(Debug)]
pub struct InformationRecord {
    pub key: Key,
    pub holder: EntityUid,
    pub subject: InformationSubject,
    pub acquired_at: SimTime,
    pub source: InformationSource,
    pub claims: OrderedMap<Key, EpistemicValue>,
}

/// A record as contracts see it.
pub struct InformationRecordView {
    pub key: Seq<char>,
    pub holder: u128,
    pub subject: InformationSubject,
    pub acquired_at: SimTime,
    pub source: InformationSource,
    pub claims: Map<Seq<char>, EpistemicValueView>,
}

impl View for InformationRecord {
    type V = InformationRecordView;

    open spec fn view(&self) -> InformationRecordView {
        InformationRecordView {
            key: self.key@,
            holder: self.holder@,
            subject: self.subject,
            acquired_at: self.acquired_at,
            source: self.source,
            claims: deep_view(self.claims@),
        }
    }
}

impl Clone for InformationRecord {
    fn clone(&self) -> (r: Self)
        ensures
            r@ == self@,
            r.key == self.key,
    {
        InformationRecord {
            key: self.key.clone(),
            holder: self.holder,
            subject: self.subject.clone(),
            acquired_at: self.acquired_at,
            source: self.source.clone(),
            claims: self.claims.duplicate(),
        }
    }
}

impl CloneView for InformationRecord {
    fn clone_view(&self) -> (r: Self) {
        self.clone()
    }
}

} // verus!
