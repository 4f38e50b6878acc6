//! Issues found while validating entities and definitions.
use crate::entity::catalog::{DefinitionResolutionError, ResolutionErrorView};
use crate::entity::class::EntityClass;
use crate::entity::component::{ComponentData, ComponentDataError, ComponentDataErrorView, component_check};
use crate::ordered_map::OrderedMap;
use crate::schema::component::ComponentSchema;
use crate::schema::registry::SchemaRegistry;
use crate::schema::context::SchemaContext;
use crate::ordered_map::OrderedKey;
use crate::types::key::Key;
use vstd::prelude::*;

verus! {

#[derive(Debug)]
pub enum EntityValidationIssue {
    ComponentKeyMismatch { map_key: Key, schema_key: Key },
    InvalidComponent { component: Key, error: ComponentDataError },
    InvalidEntityContext(SchemaContext),
    TemplateResolutionFailed(DefinitionResolutionError),
    TemplateClassMismatch { entity_class: EntityClass, template_class: EntityClass },
}

/// An entity validation issue as contracts see it.
pub enum EntityIssueView {
    ComponentKeyMismatch { map_key: Seq<char>, schema_key: Seq<char> },
    InvalidComponent { component: Seq<char>, error: ComponentDataErrorView },
    InvalidEntityContext(SchemaContext),
    TemplateResolutionFailed(ResolutionErrorView),
    TemplateClassMismatch { entity_class: EntityClass, template_class: EntityClass },
}

impl View for EntityValidationIssue {
    type V = EntityIssueView;

    open spec fn view(&self) -> EntityIssueView {
        match *self {
            EntityValidationIssue::ComponentKeyMismatch { map_key, schema_key } =>
                EntityIssueView::ComponentKeyMismatch { map_key: map_key@, schema_key: schema_key@ },
            EntityValidationIssue::InvalidComponent { component, error } =>
                EntityIssueView::InvalidComponent { component: component@, error: error@ },
            EntityValidationIssue::InvalidEntityContext(c) => EntityIssueView::InvalidEntityContext(c),
            EntityValidationIssue::TemplateResolutionFailed(e) =>
                EntityIssueView::TemplateResolutionFailed(e@),
            EntityValidationIssue::TemplateClassMismatch { entity_class, template_class } =>
                EntityIssueView::TemplateClassMismatch { entity_class, template_class },
        }
    }
}

/// The issues of one entity or definition, in the order they were found.
#[derive(Debug)]
pub struct EntityValidationReport {
    pub issues: Vec<EntityValidationIssue>,
}

impl View for EntityValidationReport {
    type V = Seq<EntityIssueView>;

    open spec fn view(&self) -> Seq<EntityIssueView> {
        self.issues@.map_values(|i: EntityValidationIssue| i@)
    }
}

impl Default for EntityValidationReport {
    fn default() -> (r: Self)
        ensures
            r@ == Seq::<EntityIssueView>::empty(),
    {
        let r = EntityValidationReport { issues: Vec::new() };
        assert(r@ =~= Seq::<EntityIssueView>::empty());
        r
    }
}

impl EntityValidationReport {
    pub fn push(&mut self, issue: EntityValidationIssue)
        ensures
            final(self)@ == old(self)@.push(issue@),
    {
        self.issues.push(issue);
        assert(self@ =~= old(self)@.push(issue@));
    }

    pub fn is_valid(&self) -> (r: bool)
        ensures
            r == (self@.len() == 0),
    {
        self.issues.len() == 0
    }
}

/// The issues of the first `n` components of a component map with keys
/// `keys` and values `values`, in key order: a component filed under a key
/// other than its schema's key is reported as such and not validated; any
/// other is validated against `registry` in `context`.
pub open spec fn component_issues(
    keys: Seq<Seq<char>>,
    values: Seq<ComponentData>,
    registry: Map<(Seq<char>, u32), ComponentSchema>,
    context: SchemaContext,
    n: int,
) -> Seq<EntityIssueView>
    decreases n,
{
    if n <= 0 {
        Seq::empty()
    } else {
        let prev = component_issues(keys, values, registry, context, n - 1);
        let k = keys[n - 1];
        let c = values[n - 1];
        if k != c.schema.key@ {
            prev.push(EntityIssueView::ComponentKeyMismatch { map_key: k, schema_key: c.schema.key@ })
        } else {
            match component_check(c, registry, context) {
                Ok(_) => prev,
                Err(e) => prev.push(EntityIssueView::InvalidComponent { component: k, error: e }),
            }
        }
    }
}

/// Appends the issues of every component of `components`, in key order.
pub fn push_component_issues(
    report: &mut EntityValidationReport,
    components: &OrderedMap<Key, ComponentData>,
    registry: &SchemaRegistry,
    context: SchemaContext,
)
    ensures
        final(report)@ == old(report)@ + component_issues(
            components.keys(),
            components.values(),
            registry@,
            context,
            components.keys().len() as int,
        ),
{
    proof {
        components.lemma_view();
    }
    let n = components.len();
    let ghost start = report@;
    for i in 0..n
        invariant
            n == components.keys().len(),
            n == components.values().len(),
            report@ == start + component_issues(
                components.keys(),
                components.values(),
                registry@,
                context,
                i as int,
            ),
    {
        let map_key = components.key_at(i);
        let component = components.value_at(i);
        let ghost before = report@;
        if !map_key.same_key(&component.schema.key) {
            report.push(
                EntityValidationIssue::ComponentKeyMismatch {
                    map_key: map_key.clone(),
                    schema_key: component.schema.key.clone(),
                },
            );
        } else {
            match component.validate(registry, context) {
                Ok(_) => {},
                Err(error) => {
                    report.push(
                        EntityValidationIssue::InvalidComponent { component: map_key.clone(), error },
                    );
                },
            }
        }
        assert(report@ =~= start + component_issues(
            components.keys(),
            components.values(),
            registry@,
            context,
            i + 1,
        ));
    }
}

} // verus!
