use crate::types::key::Key;
use crate::types::uid::{EntityUid, EventUid, SourceUid};
use vstd::prelude::*;

verus! {

#[derive(Debug, PartialEq, Eq)]
pub enum InformationSource {
    DirectObservation,
    Entity { entity: EntityUid },
    Event { event: EventUid },
    SourceRecord { source: SourceUid },
    Imported { reference: String },
}

impl Clone for InformationSource {
    fn clone(&self) -> (r: Self)
        ensures
            r == *self,
    {
        match self {
            InformationSource::DirectObservation => InformationSource::DirectObservation,
            InformationSource::Entity { entity } => InformationSource::Entity { entity: *entity },
            InformationSource::Event { event } => InformationSource::Event { event: *event },
            InformationSource::SourceRecord { source } => InformationSource::SourceRecord { source: *source },
            InformationSource::Imported { reference } => InformationSource::Imported { reference: reference.clone() },
        }
    }
}

#[derive(Clone, Debug, PartialEq, Eq)]
pub struct ProvenanceRef {
    pub field: Key,
    pub sources: Vec<InformationSource>,
}

} // verus!
