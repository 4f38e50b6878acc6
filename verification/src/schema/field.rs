use crate::schema::constraint::FieldConstraint;
use crate::schema::persistence::PersistenceClass;
use crate::types::key::Key;
use vstd::prelude::*;

verus! {

/// Serialized value shape expected for one field.
#[derive(Debug, PartialEq, Eq)]
pub enum FieldType {
    Bool,
    Integer,
    UnsignedInteger,
    Decimal,
    String,
    DisplayName,
    Key,
    EntityUid,
    DefinitionUid,
    RelationshipUid,
    EventUid,
    CorrelationUid,
    PackageUid,
    SourceUid,
    SnapshotUid,
    BranchUid,
    SimTime,
    SimDuration,
    EventSequence,
    StateRevision,
    Distance,
    Speed,
    RotationalSpeed,
    Angle,
    Object,
    Array { items: Box<FieldType> },
}

impl Clone for FieldType {
    fn clone(&self) -> (r: Self)
        ensures
            r == *self,
        decreases self,
    {
        match self {
            FieldType::Bool => FieldType::Bool,
            FieldType::Integer => FieldType::Integer,
            FieldType::UnsignedInteger => FieldType::UnsignedInteger,
            FieldType::Decimal => FieldType::Decimal,
            FieldType::String => FieldType::String,
            FieldType::DisplayName => FieldType::DisplayName,
            FieldType::Key => FieldType::Key,
            FieldType::EntityUid => FieldType::EntityUid,
            FieldType::DefinitionUid => FieldType::DefinitionUid,
            FieldType::RelationshipUid => FieldType::RelationshipUid,
            FieldType::EventUid => FieldType::EventUid,
            FieldType::CorrelationUid => FieldType::CorrelationUid,
            FieldType::PackageUid => FieldType::PackageUid,
            FieldType::SourceUid => FieldType::SourceUid,
            FieldType::SnapshotUid => FieldType::SnapshotUid,
            FieldType::BranchUid => FieldType::BranchUid,
            FieldType::SimTime => FieldType::SimTime,
            FieldType::SimDuration => FieldType::SimDuration,
            FieldType::EventSequence => FieldType::EventSequence,
            FieldType::StateRevision => FieldType::StateRevision,
            FieldType::Distance => FieldType::Distance,
            FieldType::Speed => FieldType::Speed,
            FieldType::RotationalSpeed => FieldType::RotationalSpeed,
            FieldType::Angle => FieldType::Angle,
            FieldType::Object => FieldType::Object,
            FieldType::Array { items } => {
                let inner: &FieldType = items;
                FieldType::Array { items: Box::new(inner.clone()) }
            },
        }
    }
}

#[derive(Clone, Copy, Debug, PartialEq, Eq, Structural)]
pub enum FieldRequirement {
    Required,
    Optional,
}

/// One declared field of a component schema.
#[derive(Debug)]
pub struct FieldSchema {
    pub key: Key,
    pub field_type: FieldType,
    pub requirement: FieldRequirement,
    pub persistence: PersistenceClass,
    pub constraints: Vec<FieldConstraint>,
}

impl FieldSchema {
    pub fn new(
        key: Key,
        field_type: FieldType,
        requirement: FieldRequirement,
        persistence: PersistenceClass,
    ) -> (r: Self)
        ensures
            r.key == key,
            r.field_type == field_type,
            r.requirement == requirement,
            r.persistence == persistence,
            r.constraints@ == Seq::<FieldConstraint>::empty(),
    {
        FieldSchema { key, field_type, requirement, persistence, constraints: Vec::new() }
    }

    /// Appends one constraint.
    pub fn with_constraint(self, constraint: FieldConstraint) -> (r: Self)
        ensures
            r.key == self.key,
            r.field_type == self.field_type,
            r.requirement == self.requirement,
            r.persistence == self.persistence,
            r.constraints@ == self.constraints@.push(constraint),
    {
        let mut s = self;
        s.constraints.push(constraint);
        s
    }

    pub fn is_required(&self) -> (r: bool)
        ensures
            r == (self.requirement == FieldRequirement::Required),
    {
        matches!(self.requirement, FieldRequirement::Required)
    }
}

impl Clone for FieldSchema {
    fn clone(&self) -> (r: Self)
        ensures
            r.key == self.key,
            r.field_type == self.field_type,
            r.requirement == self.requirement,
            r.persistence == self.persistence,
            r.constraints@.len() == self.constraints@.len(),
            forall|i: int|
                0 <= i < self.constraints@.len() ==> #[trigger] r.constraints@[i]@
                    == self.constraints@[i]@,
    {
        let mut constraints: Vec<FieldConstraint> = Vec::new();
        let n = self.constraints.len();
        for i in 0..n
            invariant
                n == self.constraints@.len(),
                constraints@.len() == i,
                forall|j: int|
                    0 <= j < i ==> #[trigger] constraints@[j]@ == self.constraints@[j]@,
        {
            constraints.push(self.constraints[i].clone());
        }
        FieldSchema {
            key: self.key.clone(),
            field_type: self.field_type.clone(),
            requirement: self.requirement,
            persistence: self.persistence,
            constraints,
        }
    }
}

} // verus!
