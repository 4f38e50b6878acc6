//! The registry of component schemas, by key and version.
use crate::schema::component::{ComponentSchema, SchemaDefinitionError, SchemaDefinitionErrorView, schema_definition_error, schema_error_text};
use crate::text::{int_text, join, u64_text};
use crate::schema::versioned::{VersionKey, VersionMap, has_key, is_latest, key_set, versioned_get, versioned_key_count, versioned_latest, versioned_versions};
use crate::ordered_map::OrderedMap;
use crate::types::key::Key;
use vstd::prelude::*;
use vstd::string::*;

verus! {

#[derive(Debug)]
pub enum RegistryError {
    InvalidSchema(SchemaDefinitionError),
    DuplicateSchema { key: Key, version: u32 },
}

/// A registry error as contracts see it.
pub enum RegistryErrorView {
    InvalidSchema(SchemaDefinitionErrorView),
    DuplicateSchema { key: Seq<char>, version: u32 },
}

impl View for RegistryError {
    type V = RegistryErrorView;

    open spec fn view(&self) -> RegistryErrorView {
        match *self {
            RegistryError::InvalidSchema(e) => RegistryErrorView::InvalidSchema(e@),
            RegistryError::DuplicateSchema { key, version } => RegistryErrorView::DuplicateSchema {
                key: key@,
                version,
            },
        }
    }
}

/// The text of a registry error.
pub open spec fn registry_error_text(e: RegistryError) -> Seq<char> {
    match e {
        RegistryError::InvalidSchema(error) => "invalid component schema: "@ + schema_error_text(error),
        RegistryError::DuplicateSchema { key, version } => "component schema already registered: "@
            + key@ + " v"@ + int_text(version as int),
    }
}

impl RegistryError {
    pub fn message(&self) -> (r: String)
        ensures
            r@ == registry_error_text(*self),
    {
        match self {
            RegistryError::InvalidSchema(error) => join(
                String::from_str("invalid component schema: "),
                error.message().as_str(),
            ),
            RegistryError::DuplicateSchema { key, version } => {
                let out = join(String::from_str("component schema already registered: "), key.as_str());
                let out = join(out, " v");
                join(out, u64_text(*version as u64).as_str())
            },
        }
    }
}

/// Whether a schema may stand in a registry under this key and version: it
/// is filed under its own key and version and obeys the definition rules.
pub open spec fn registered_at(p: (Seq<char>, u32), s: ComponentSchema) -> bool {
    &&& s.key@ == p.0
    &&& s.version == p.1
    &&& schema_definition_error(s.version, s.fields@) is None
}

/// The outcome of registering `schema` in a registry holding `m`.
pub open spec fn register_outcome(
    m: Map<(Seq<char>, u32), ComponentSchema>,
    schema: ComponentSchema,
) -> Result<Map<(Seq<char>, u32), ComponentSchema>, RegistryErrorView> {
    match schema_definition_error(schema.version, schema.fields@) {
        Some(e) => Err(RegistryErrorView::InvalidSchema(e)),
        None => if m.contains_key((schema.key@, schema.version)) {
            Err(RegistryErrorView::DuplicateSchema { key: schema.key@, version: schema.version })
        } else {
            Ok(m.insert((schema.key@, schema.version), schema))
        },
    }
}

/// Registered component schemas, several versions of one key side by side.
#[derive(Debug)]
pub struct SchemaRegistry {
    components: VersionMap<ComponentSchema>,
}

impl View for SchemaRegistry {
    type V = Map<(Seq<char>, u32), ComponentSchema>;

    closed spec fn view(&self) -> Map<(Seq<char>, u32), ComponentSchema> {
        self.components@
    }
}

impl Default for SchemaRegistry {
    fn default() -> (r: Self)
        ensures
            r@ == Map::<(Seq<char>, u32), ComponentSchema>::empty(),
    {
        SchemaRegistry::new()
    }
}

impl SchemaRegistry {
    #[verifier::type_invariant]
    closed spec fn wf(self) -> bool {
        forall|p: (Seq<char>, u32)| #[trigger]
            self.components@.contains_key(p) ==> registered_at(p, self.components@[p])
    }

    /// The entries in key order, then version order.
    pub closed spec fn schemas(self) -> Seq<ComponentSchema> {
        self.components.values()
    }

    /// The registry holds finitely many schemas.
    pub proof fn lemma_finite(self)
        ensures
            self@.dom().finite(),
    {
        self.components.lemma_view();
    }

    pub fn new() -> (r: Self)
        ensures
            r@ == Map::<(Seq<char>, u32), ComponentSchema>::empty(),
    {
        SchemaRegistry { components: OrderedMap::new() }
    }

    /// Registers a schema that obeys the definition rules under a key and
    /// version not yet taken.
    pub fn register(&mut self, schema: ComponentSchema) -> (r: Result<(), RegistryError>)
        ensures
            match register_outcome(old(self)@, schema) {
                Ok(m) => r is Ok && final(self)@ == m,
                Err(e) => r matches Err(x) && x@ == e && final(self)@ == old(self)@,
            },
    {
        proof {
            use_type_invariant(&*self);
        }
        if let Err(e) = schema.validate_definition() {
            return Err(RegistryError::InvalidSchema(e));
        }
        let probe = VersionKey { key: schema.key.clone(), version: schema.version };
        if self.components.contains_key(&probe) {
            return Err(RegistryError::DuplicateSchema { key: schema.key, version: schema.version });
        }
        let ghost p = (schema.key@, schema.version);
        let mut components: VersionMap<ComponentSchema> = OrderedMap::new();
        std::mem::swap(&mut components, &mut self.components);
        components.insert(probe, schema);
        proof {
            assert forall|q: (Seq<char>, u32)| #[trigger]
                components@.contains_key(q) implies registered_at(q, components@[q]) by {
                if q != p {
                    assert(old(self)@.contains_key(q));
                }
            }
        }
        self.components = components;
        Ok(())
    }

    pub fn get(&self, key: &str, version: u32) -> (r: Option<&ComponentSchema>)
        ensures
            match r {
                Some(s) => self@.contains_key((key@, version)) && *s == self@[(key@, version)],
                None => !self@.contains_key((key@, version)),
            },
    {
        versioned_get(&self.components, key, version)
    }

    /// The registered schema with the greatest version of this key.
    pub fn latest(&self, key: &str) -> (r: Option<&ComponentSchema>)
        ensures
            match r {
                Some(s) => exists|v: u32| is_latest(self@, key@, v) && *s == self@[(key@, v)],
                None => !has_key(self@, key@),
            },
    {
        let r = versioned_latest(&self.components, key);
        proof {
            if let Some(s) = r {
                let v = choose|v: u32| is_latest(self.components@, key@, v) && *s == self.components@[(key@, v)];
                assert(is_latest(self@, key@, v));
            }
        }
        r
    }

    /// The registered versions of this key, in increasing order.
    pub fn versions(&self, key: &str) -> (r: Vec<u32>)
        ensures
            forall|i: int, j: int| 0 <= i < j < r@.len() ==> r@[i] < r@[j],
            forall|v: u32| r@.contains(v) <==> self@.contains_key((key@, v)),
    {
        versioned_versions(&self.components, key)
    }

    /// Number of registered component schema versions.
    pub fn len(&self) -> (n: usize)
        ensures
            n == self@.len(),
    {
        self.components.len()
    }

    /// Number of distinct component keys, regardless of version count.
    pub fn component_count(&self) -> (n: usize)
        ensures
            n == key_set(self@).len(),
    {
        versioned_key_count(&self.components)
    }

    pub fn is_empty(&self) -> (b: bool)
        ensures
            b == (self@ == Map::<(Seq<char>, u32), ComponentSchema>::empty()),
    {
        self.components.is_empty()
    }

    /// The registered schemas of one owner, in key order, then version order.
    pub fn owned_by(&self, owner: &str) -> (r: Vec<&ComponentSchema>)
        ensures
            r@.map_values(|s: &ComponentSchema| *s) == self.schemas().filter(
                |s: ComponentSchema| s.owner@ == owner@,
            ),
    {
        let n = self.components.len();
        let ghost all = self.components.values();
        let mut out: Vec<&ComponentSchema> = Vec::new();
        proof {
            self.components.lemma_view();
        }
        for i in 0..n
            invariant
                n == self.components.keys().len(),
                all == self.components.values(),
                all.len() == n,
                out@.map_values(|s: &ComponentSchema| *s) == all.subrange(0, i as int).filter(
                    |s: ComponentSchema| s.owner@ == owner@,
                ),
        {
            proof {
                self.components.lemma_view();
                assert(all.subrange(0, i + 1).drop_last() =~= all.subrange(0, i as int));
                reveal(Seq::filter);
            }
            let s = self.components.value_at(i);
            let ghost before = out@;
            if crate::text::str_eq(s.owner.as_str(), owner) {
                out.push(s);
                assert(out@.map_values(|s: &ComponentSchema| *s) =~= before.map_values(
                    |s: &ComponentSchema| *s,
                ).push(*s));
            }
        }
        proof {
            assert(all.subrange(0, n as int) =~= all);
        }
        out
    }
}

/// Registering a schema and then asking for its key and version gives that
/// schema back, and the registry holds one schema more than before.
pub proof fn law_register_then_get(before: SchemaRegistry, schema: ComponentSchema, after: SchemaRegistry)
    requires
        register_outcome(before@, schema) == Ok::<_, RegistryErrorView>(after@),
    ensures
        after@.contains_key((schema.key@, schema.version)),
        after@[(schema.key@, schema.version)] == schema,
        after@.len() == before@.len() + 1,
{
    before.lemma_finite();
    let p = (schema.key@, schema.version);
    assert(!before@.contains_key(p));
    assert(after@.dom() == before@.dom().insert(p));
}

} // verus!
