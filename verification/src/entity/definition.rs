//! Reusable content and template data.
use crate::entity::class::EntityClass;
use crate::entity::component::ComponentData;
use crate::entity::validation::{EntityValidationReport, component_issues, push_component_issues};
use crate::keyed::Keyed;
use crate::ordered_map::OrderedMap;
use crate::schema::context::SchemaContext;
use crate::schema::registry::SchemaRegistry;
use crate::types::display_name::DisplayName;
use crate::types::key::Key;
use crate::types::uid::DefinitionUid;
use vstd::prelude::*;

verus! {

/// Reusable content and template data.
///
/// A definition may extend one parent definition. A child component with
/// the same component key replaces the parent's component as a complete
/// payload; no field-level patching takes place.
#[derive(Debug)]
pub struct Definition {
    pub uid: DefinitionUid,
    pub key: Key,
    pub name: DisplayName,
    pub class: EntityClass,
    pub extends: Option<DefinitionUid>,
    pub components: OrderedMap<Key, ComponentData>,
}

impl Keyed<DefinitionUid> for Definition {
    open spec fn uid_of(&self) -> u128 {
        self.uid@
    }

    open spec fn key_of(&self) -> Seq<char> {
        self.key@
    }

    fn uid(&self) -> (r: DefinitionUid) {
        self.uid
    }

    fn key(&self) -> (r: &Key) {
        &self.key
    }
}

impl Definition {
    pub fn new(uid: DefinitionUid, key: Key, name: DisplayName, class: EntityClass) -> (r: Self)
        ensures
            r.uid == uid,
            r.key == key,
            r.name == name,
            r.class == class,
            r.extends is None,
            r.components@ == Map::<Seq<char>, ComponentData>::empty(),
    {
        Definition { uid, key, name, class, extends: None, components: OrderedMap::new() }
    }

    pub fn with_parent(self, parent: DefinitionUid) -> (r: Self)
        ensures
            r.uid == self.uid,
            r.key == self.key,
            r.name == self.name,
            r.class == self.class,
            r.extends == Some(parent),
            r.components == self.components,
    {
        let mut d = self;
        d.extends = Some(parent);
        d
    }

    /// Files a component under its schema's key, returning the one it replaces.
    pub fn set_component(&mut self, component: ComponentData) -> (r: Option<ComponentData>)
        ensures
            final(self).components@ == old(self).components@.insert(component.schema.key@, component),
            match r {
                Some(c) => old(self).components@.contains_key(component.schema.key@) && c
                    == old(self).components@[component.schema.key@],
                None => !old(self).components@.contains_key(component.schema.key@),
            },
            final(self).uid == old(self).uid,
            final(self).key == old(self).key,
            final(self).name == old(self).name,
            final(self).class == old(self).class,
            final(self).extends == old(self).extends,
    {
        let key = component.schema.key.clone();
        self.components.insert(key, component)
    }

    /// The component filed under this key.
    pub fn component(&self, key: &str) -> (r: Option<&ComponentData>)
        ensures
            match r {
                Some(c) => self.components@.contains_key(key@) && *c == self.components@[key@],
                None => !self.components@.contains_key(key@),
            },
    {
        crate::types::key::lookup_text(&self.components, key)
    }

    /// Validates every component in definition context, in key order.
    pub fn validate_components(&self, registry: &SchemaRegistry) -> (r: EntityValidationReport)
        ensures
            r@ == component_issues(
                self.components.keys(),
                self.components.values(),
                registry@,
                SchemaContext::Definition,
                self.components.keys().len() as int,
            ),
    {
        let mut report = EntityValidationReport::default();
        push_component_issues(&mut report, &self.components, registry, SchemaContext::Definition);
        assert(report@ =~= component_issues(
            self.components.keys(),
            self.components.values(),
            registry@,
            SchemaContext::Definition,
            self.components.keys().len() as int,
        ));
        report
    }
}

} // verus!
