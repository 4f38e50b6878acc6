//! One instantiated entity.
use crate::entity::catalog::{DefinitionCatalog, resolve_spec};
use crate::entity::class::EntityClass;
use crate::entity::component::{ComponentData, ComponentDataView, clone_components, components_view};
use crate::entity::definition::Definition;
use crate::entity::validation::{EntityIssueView, EntityValidationIssue, EntityValidationReport, component_issues, push_component_issues};
use crate::keyed::Keyed;
use crate::ordered_map::OrderedMap;
use crate::schema::context::SchemaContext;
use crate::schema::registry::SchemaRegistry;
use crate::types::display_name::DisplayName;
use crate::types::key::Key;
use crate::types::uid::{DefinitionUid, EntityUid};
use vstd::prelude::*;

verus! {

/// One instantiated entity.
#[derive(Debug)]
pub struct Entity {
    pub uid: EntityUid,
    pub key: Key,
    pub name: DisplayName,
    pub class: EntityClass,
    pub template: Option<DefinitionUid>,
    pub components: OrderedMap<Key, ComponentData>,
}

/// An entity as contracts see it.
pub struct EntityView {
    pub uid: u128,
    pub key: Seq<char>,
    pub name: Seq<char>,
    pub class: EntityClass,
    pub template: Option<u128>,
    pub components: Map<Seq<char>, ComponentDataView>,
}

impl View for Entity {
    type V = EntityView;

    open spec fn view(&self) -> EntityView {
        EntityView {
            uid: self.uid@,
            key: self.key@,
            name: self.name@,
            class: self.class,
            template: match self.template {
                Some(t) => Some(t@),
                None => None,
            },
            components: components_view(self.components@),
        }
    }
}

impl Clone for Entity {
    fn clone(&self) -> (r: Self)
        ensures
            r@ == self@,
            r.uid == self.uid,
            r.key == self.key,
            r.class == self.class,
            r.components.keys() == self.components.keys(),
    {
        Entity {
            uid: self.uid,
            key: self.key.clone(),
            name: self.name.clone(),
            class: self.class,
            template: self.template,
            components: clone_components(&self.components),
        }
    }
}

impl crate::ordered_map::CloneView for Entity {
    fn clone_view(&self) -> (r: Self) {
        self.clone()
    }
}

impl Keyed<EntityUid> for Entity {
    open spec fn uid_of(&self) -> u128 {
        self.uid@
    }

    open spec fn key_of(&self) -> Seq<char> {
        self.key@
    }

    fn uid(&self) -> (r: EntityUid) {
        self.uid
    }

    fn key(&self) -> (r: &Key) {
        &self.key
    }
}

/// What the template check finds: the template must resolve, to a
/// definition of the entity's own class.
pub open spec fn template_issues(e: Entity, defs: Map<u128, Definition>) -> Seq<EntityIssueView> {
    match e.template {
        None => Seq::empty(),
        Some(t) => match resolve_spec(defs, t@) {
            Ok(resolved) => if resolved.class != e.class {
                seq![
                    EntityIssueView::TemplateClassMismatch {
                        entity_class: e.class,
                        template_class: resolved.class,
                    },
                ]
            } else {
                Seq::empty()
            },
            Err(err) => seq![EntityIssueView::TemplateResolutionFailed(err)],
        },
    }
}

/// Whether entities may be validated in `context`: initial and runtime
/// state only.
pub open spec fn entity_context(context: SchemaContext) -> bool {
    context == SchemaContext::InitialState || context == SchemaContext::RuntimeState
}

/// The issues of entity `e` in `context`, in the order they are found.
pub open spec fn entity_issues(
    e: Entity,
    schemas: Map<(Seq<char>, u32), crate::schema::component::ComponentSchema>,
    defs: Map<u128, Definition>,
    context: SchemaContext,
) -> Seq<EntityIssueView> {
    if !entity_context(context) {
        seq![EntityIssueView::InvalidEntityContext(context)]
    } else {
        template_issues(e, defs) + component_issues(
            e.components.keys(),
            e.components.values(),
            schemas,
            context,
            e.components.keys().len() as int,
        )
    }
}

impl Entity {
    pub fn new(uid: EntityUid, key: Key, name: DisplayName, class: EntityClass) -> (r: Self)
        ensures
            r.uid == uid,
            r.key == key,
            r.name == name,
            r.class == class,
            r.template is None,
            r.components@ == Map::<Seq<char>, ComponentData>::empty(),
    {
        Entity { uid, key, name, class, template: None, components: OrderedMap::new() }
    }

    pub fn with_template(self, template: DefinitionUid) -> (r: Self)
        ensures
            r.uid == self.uid,
            r.key == self.key,
            r.name == self.name,
            r.class == self.class,
            r.template == Some(template),
            r.components == self.components,
    {
        let mut e = self;
        e.template = Some(template);
        e
    }

    /// Files a component under its schema's key, returning the one it replaces.
    pub fn set_component(&mut self, component: ComponentData) -> (r: Option<ComponentData>)
        ensures
            final(self).components@ == old(self).components@.insert(component.schema.key@, component),
            match r {
                Some(c) => old(self).components@.contains_key(component.schema.key@) && c
                    == old(self).components@[component.schema.key@],
                None => !old(self).components@.contains_key(component.schema.key@),
            },
            final(self).uid == old(self).uid,
            final(self).key == old(self).key,
            final(self).name == old(self).name,
            final(self).class == old(self).class,
            final(self).template == old(self).template,
    {
        let key = component.schema.key.clone();
        self.components.insert(key, component)
    }

    /// The component filed under this key.
    pub fn component(&self, key: &str) -> (r: Option<&ComponentData>)
        ensures
            match r {
                Some(c) => self.components@.contains_key(key@) && *c == self.components@[key@],
                None => !self.components@.contains_key(key@),
            },
    {
        crate::types::key::lookup_text(&self.components, key)
    }

    /// Validates the entity in initial or runtime state context: its
    /// template, then every component in key order.
    pub fn validate(
        &self,
        schemas: &SchemaRegistry,
        definitions: &DefinitionCatalog,
        context: SchemaContext,
    ) -> (r: EntityValidationReport)
        ensures
            r@ == entity_issues(*self, schemas@, definitions@, context),
    {
        let mut report = EntityValidationReport::default();
        match context {
            SchemaContext::InitialState | SchemaContext::RuntimeState => {},
            _ => {
                report.push(EntityValidationIssue::InvalidEntityContext(context));
                assert(report@ =~= entity_issues(*self, schemas@, definitions@, context));
                return report;
            },
        }
        if let Some(template) = self.template {
            match definitions.resolve(template) {
                Ok(resolved) => {
                    if resolved.class != self.class {
                        report.push(
                            EntityValidationIssue::TemplateClassMismatch {
                                entity_class: self.class,
                                template_class: resolved.class,
                            },
                        );
                    }
                },
                Err(error) => {
                    report.push(EntityValidationIssue::TemplateResolutionFailed(error));
                },
            }
        }
        assert(report@ =~= template_issues(*self, definitions@));
        push_component_issues(&mut report, &self.components, schemas, context);
        report
    }
}

} // verus!
