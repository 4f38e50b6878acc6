//! The registry of relationship schemas, by key and version.
use crate::ordered_map::OrderedMap;
use crate::relationship::schema::{RelSchemaErrorView, RelationshipSchema, RelationshipSchemaDefinitionError, rel_schema_error_text, relationship_schema_error};
use crate::text::{int_text, join, u64_text};
use crate::schema::versioned::{VersionKey, VersionMap, has_key, is_latest, versioned_get, versioned_latest, versioned_versions};
use crate::types::key::Key;
use vstd::prelude::*;
use vstd::string::*;

verus! {

#[derive(Debug)]
pub enum RelationshipRegistryError {
    InvalidSchema(RelationshipSchemaDefinitionError),
    DuplicateSchema { key: Key, version: u32 },
}

/// A registry error as contracts see it.
pub enum RelRegistryErrorView {
    InvalidSchema(RelSchemaErrorView),
    DuplicateSchema { key: Seq<char>, version: u32 },
}

impl View for RelationshipRegistryError {
    type V = RelRegistryErrorView;

    open spec fn view(&self) -> RelRegistryErrorView {
        match *self {
            RelationshipRegistryError::InvalidSchema(e) => RelRegistryErrorView::InvalidSchema(e@),
            RelationshipRegistryError::DuplicateSchema { key, version } =>
                RelRegistryErrorView::DuplicateSchema { key: key@, version },
        }
    }
}

/// The text of a registry error.
pub open spec fn rel_registry_error_text(e: RelationshipRegistryError) -> Seq<char> {
    match e {
        RelationshipRegistryError::InvalidSchema(error) => "invalid relationship schema: "@
            + rel_schema_error_text(error),
        RelationshipRegistryError::DuplicateSchema { key, version } =>
            "relationship schema already registered: "@ + key@ + " v"@ + int_text(version as int),
    }
}

impl RelationshipRegistryError {
    pub fn message(&self) -> (r: String)
        ensures
            r@ == rel_registry_error_text(*self),
    {
        match self {
            RelationshipRegistryError::InvalidSchema(error) => join(
                String::from_str("invalid relationship schema: "),
                error.message().as_str(),
            ),
            RelationshipRegistryError::DuplicateSchema { key, version } => {
                let out = join(String::from_str("relationship schema already registered: "), key.as_str());
                let out = join(out, " v");
                join(out, u64_text(*version as u64).as_str())
            },
        }
    }
}

/// Whether a schema may stand in a registry under this key and version: it
/// is filed under its own key and version and obeys the definition rules.
pub open spec fn rel_registered_at(p: (Seq<char>, u32), s: RelationshipSchema) -> bool {
    &&& s.key@ == p.0
    &&& s.version == p.1
    &&& relationship_schema_error(s) is None
}

/// The outcome of registering `schema` in a registry holding `m`.
pub open spec fn rel_register_outcome(
    m: Map<(Seq<char>, u32), RelationshipSchema>,
    schema: RelationshipSchema,
) -> Result<Map<(Seq<char>, u32), RelationshipSchema>, RelRegistryErrorView> {
    match relationship_schema_error(schema) {
        Some(e) => Err(RelRegistryErrorView::InvalidSchema(e)),
        None => if m.contains_key((schema.key@, schema.version)) {
            Err(RelRegistryErrorView::DuplicateSchema { key: schema.key@, version: schema.version })
        } else {
            Ok(m.insert((schema.key@, schema.version), schema))
        },
    }
}

/// Registered relationship schemas, several versions of one key side by side.
#[derive(Debug)]
pub struct RelationshipSchemaRegistry {
    schemas: VersionMap<RelationshipSchema>,
}

impl View for RelationshipSchemaRegistry {
    type V = Map<(Seq<char>, u32), RelationshipSchema>;

    closed spec fn view(&self) -> Map<(Seq<char>, u32), RelationshipSchema> {
        self.schemas@
    }
}

impl Default for RelationshipSchemaRegistry {
    fn default() -> (r: Self)
        ensures
            r@ == Map::<(Seq<char>, u32), RelationshipSchema>::empty(),
    {
        RelationshipSchemaRegistry::new()
    }
}

impl RelationshipSchemaRegistry {
    #[verifier::type_invariant]
    closed spec fn wf(self) -> bool {
        forall|p: (Seq<char>, u32)| #[trigger]
            self.schemas@.contains_key(p) ==> rel_registered_at(p, self.schemas@[p])
    }

    /// Every registered schema is filed under its own key and version and
    /// obeys the definition rules.
    pub fn lemma_registered(&self)
        ensures
            forall|p: (Seq<char>, u32)| #[trigger]
                self@.contains_key(p) ==> rel_registered_at(p, self@[p]),
    {
        proof {
            use_type_invariant(self);
        }
    }

    /// The registry holds finitely many schemas.
    pub proof fn lemma_finite(self)
        ensures
            self@.dom().finite(),
    {
        self.schemas.lemma_view();
    }

    pub fn new() -> (r: Self)
        ensures
            r@ == Map::<(Seq<char>, u32), RelationshipSchema>::empty(),
    {
        RelationshipSchemaRegistry { schemas: OrderedMap::new() }
    }

    /// Registers a schema that obeys the definition rules under a key and
    /// version not yet taken.
    pub fn register(&mut self, schema: RelationshipSchema) -> (r: Result<(), RelationshipRegistryError>)
        ensures
            match rel_register_outcome(old(self)@, schema) {
                Ok(m) => r is Ok && final(self)@ == m,
                Err(e) => r matches Err(x) && x@ == e && final(self)@ == old(self)@,
            },
    {
        proof {
            use_type_invariant(&*self);
        }
        if let Err(e) = schema.validate_definition() {
            return Err(RelationshipRegistryError::InvalidSchema(e));
        }
        let probe = VersionKey { key: schema.key.clone(), version: schema.version };
        if self.schemas.contains_key(&probe) {
            return Err(RelationshipRegistryError::DuplicateSchema { key: schema.key, version: schema.version });
        }
        let ghost p = (schema.key@, schema.version);
        let mut schemas: VersionMap<RelationshipSchema> = OrderedMap::new();
        std::mem::swap(&mut schemas, &mut self.schemas);
        schemas.insert(probe, schema);
        proof {
            assert forall|q: (Seq<char>, u32)| #[trigger]
                schemas@.contains_key(q) implies rel_registered_at(q, schemas@[q]) by {
                if q != p {
                    assert(old(self)@.contains_key(q));
                }
            }
        }
        self.schemas = schemas;
        Ok(())
    }

    pub fn get(&self, key: &str, version: u32) -> (r: Option<&RelationshipSchema>)
        ensures
            match r {
                Some(s) => self@.contains_key((key@, version)) && *s == self@[(key@, version)],
                None => !self@.contains_key((key@, version)),
            },
    {
        versioned_get(&self.schemas, key, version)
    }

    /// The registered schema with the greatest version of this key.
    pub fn latest(&self, key: &str) -> (r: Option<&RelationshipSchema>)
        ensures
            match r {
                Some(s) => exists|v: u32| is_latest(self@, key@, v) && *s == self@[(key@, v)],
                None => !has_key(self@, key@),
            },
    {
        let r = versioned_latest(&self.schemas, key);
        proof {
            if let Some(s) = r {
                let v = choose|v: u32| is_latest(self.schemas@, key@, v) && *s == self.schemas@[(key@, v)];
                assert(is_latest(self@, key@, v));
            }
        }
        r
    }

    /// The registered versions of this key, in increasing order.
    pub fn versions(&self, key: &str) -> (r: Vec<u32>)
        ensures
            forall|i: int, j: int| 0 <= i < j < r@.len() ==> r@[i] < r@[j],
            forall|v: u32| r@.contains(v) <==> self@.contains_key((key@, v)),
    {
        versioned_versions(&self.schemas, key)
    }

    /// Number of registered relationship schema versions.
    pub fn len(&self) -> (n: usize)
        ensures
            n == self@.len(),
    {
        self.schemas.len()
    }

    pub fn is_empty(&self) -> (b: bool)
        ensures
            b == (self@ == Map::<(Seq<char>, u32), RelationshipSchema>::empty()),
    {
        self.schemas.is_empty()
    }
}

} // verus!
