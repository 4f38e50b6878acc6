//! One component payload bound to one exact schema version.
use crate::ordered_map::OrderedMap;
use crate::schema::component::{ComponentSchema, ComponentSchemaRef, payload_issues};
use crate::schema::context::SchemaContext;
use crate::schema::json::{JsonData, JsonValue};
use crate::schema::registry::SchemaRegistry;
use crate::schema::validation::{ComponentValidationIssueView, ComponentValidationReport};
use crate::types::key::Key;
use crate::text::{int_text, join, u64_text, usize_text};
use vstd::prelude::*;
use vstd::string::*;

verus! {

/// One canonical component payload bound to one exact schema version.
#[derive(Debug)]
pub struct ComponentData {
    pub schema: ComponentSchemaRef,
    pub payload: JsonValue,
}

/// A component as contracts see it: its schema reference and the content
/// of its payload.
pub struct ComponentDataView {
    pub schema: (Seq<char>, u32),
    pub payload: JsonData,
}

impl View for ComponentData {
    type V = ComponentDataView;

    open spec fn view(&self) -> ComponentDataView {
        ComponentDataView { schema: self.schema@, payload: self.payload@ }
    }
}

impl Clone for ComponentData {
    fn clone(&self) -> (r: Self)
        ensures
            r@ == self@,
            r.schema == self.schema,
    {
        ComponentData { schema: self.schema.clone(), payload: self.payload.clone() }
    }
}

/// The content of each component of a component map.
pub open spec fn components_view(m: Map<Seq<char>, ComponentData>) -> Map<Seq<char>, ComponentDataView> {
    m.map_values(|c: ComponentData| c@)
}

/// A copy of a component map, entry for entry.
pub fn clone_components(m: &OrderedMap<Key, ComponentData>) -> (r: OrderedMap<Key, ComponentData>)
    ensures
        r.keys() == m.keys(),
        components_view(r@) == components_view(m@),
{
    let n = m.len();
    let mut out: OrderedMap<Key, ComponentData> = OrderedMap::new();
    m.lemma_sorted();
    for i in 0..n
        invariant
            n == m.keys().len(),
            m.keys().len() == m.values().len(),
            crate::ordered_map::strictly_sorted::<Key>(m.keys()),
            out.keys() == m.keys().subrange(0, i as int),
            out.values().len() == i,
            forall|j: int| 0 <= j < i ==> (#[trigger] out.values()[j])@ == m.values()[j]@,
    {
        let key = m.key_at(i).clone();
        let value = m.value_at(i).clone();
        let ghost before = out.values();
        proof {
            if i > 0 {
                assert(out.keys().last() == m.keys()[i - 1]);
            }
        }
        out.push_greatest(key, value);
        proof {
            assert(out.keys() =~= m.keys().subrange(0, i + 1));
            assert(out.values() == before.push(value));
        }
    }
    proof {
        out.lemma_view();
        m.lemma_view();
        assert(out.keys() =~= m.keys());
        assert(components_view(out@) =~= components_view(m@)) by {
            assert forall|k: Seq<char>| #[trigger] out@.contains_key(k) implies out@[k]@ == m@[k]@ by {
                let i = m.keys().index_of(k);
                crate::ordered_map::lemma_map_of_index::<Key, ComponentData>(m.keys(), m.values(), i);
                crate::ordered_map::lemma_map_of_index::<Key, ComponentData>(out.keys(), out.values(), i);
            }
        }
    }
    out
}

#[derive(Debug)]
pub enum ComponentDataError {
    UnknownSchema(ComponentSchemaRef),
    InvalidPayload { schema: ComponentSchemaRef, report: ComponentValidationReport },
}

/// A component error as contracts see it.
pub enum ComponentDataErrorView {
    UnknownSchema((Seq<char>, u32)),
    InvalidPayload { schema: (Seq<char>, u32), issues: Seq<ComponentValidationIssueView> },
}

impl View for ComponentDataError {
    type V = ComponentDataErrorView;

    open spec fn view(&self) -> ComponentDataErrorView {
        match *self {
            ComponentDataError::UnknownSchema(s) => ComponentDataErrorView::UnknownSchema(s@),
            ComponentDataError::InvalidPayload { schema, report } =>
                ComponentDataErrorView::InvalidPayload { schema: schema@, issues: report@ },
        }
    }
}

/// The text of a component error.
pub open spec fn component_error_text(e: ComponentDataError) -> Seq<char> {
    match e {
        ComponentDataError::UnknownSchema(schema) => "component schema is not registered: "@ + schema.key@
            + " v"@ + int_text(schema.version as int),
        ComponentDataError::InvalidPayload { schema, report } => "component payload does not match "@
            + schema.key@ + " v"@ + int_text(schema.version as int) + " ("@ + int_text(
            report.issues@.len() as int,
        ) + " issue(s))"@,
    }
}

impl ComponentDataError {
    pub fn message(&self) -> (r: String)
        ensures
            r@ == component_error_text(*self),
    {
        match self {
            ComponentDataError::UnknownSchema(schema) => {
                let out = join(String::from_str("component schema is not registered: "), schema.key.as_str());
                let out = join(out, " v");
                join(out, u64_text(schema.version as u64).as_str())
            },
            ComponentDataError::InvalidPayload { schema, report } => {
                let out = join(String::from_str("component payload does not match "), schema.key.as_str());
                let out = join(out, " v");
                let out = join(out, u64_text(schema.version as u64).as_str());
                let out = join(out, " (");
                let out = join(out, usize_text(report.issues.len()).as_str());
                join(out, " issue(s))")
            },
        }
    }
}

/// What validating `c` against the schemas `registry` in `context` finds:
/// the exact schema version must be registered, and the payload must give
/// no issue under it.
pub open spec fn component_check(
    c: ComponentData,
    registry: Map<(Seq<char>, u32), ComponentSchema>,
    context: SchemaContext,
) -> Result<(), ComponentDataErrorView> {
    if !registry.contains_key(c.schema@) {
        Err(ComponentDataErrorView::UnknownSchema(c.schema@))
    } else {
        let issues = payload_issues(registry[c.schema@], c.payload, context);
        if issues.len() == 0 {
            Ok(())
        } else {
            Err(ComponentDataErrorView::InvalidPayload { schema: c.schema@, issues })
        }
    }
}

impl ComponentData {
    pub fn new(schema: ComponentSchemaRef, payload: JsonValue) -> (r: Self)
        ensures
            r.schema == schema,
            r.payload == payload,
    {
        ComponentData { schema, payload }
    }

    /// Validates the payload against its exact registered schema version.
    pub fn validate(&self, registry: &SchemaRegistry, context: SchemaContext) -> (r: Result<
        (),
        ComponentDataError,
    >)
        ensures
            match component_check(*self, registry@, context) {
                Ok(_) => r is Ok,
                Err(e) => r matches Err(x) && x@ == e,
            },
    {
        let schema = match registry.get(self.schema.key.as_str(), self.schema.version) {
            Some(s) => s,
            None => {
                return Err(ComponentDataError::UnknownSchema(self.schema.clone()));
            },
        };
        let report = schema.validate_payload(&self.payload, context);
        if report.is_valid() {
            Ok(())
        } else {
            Err(ComponentDataError::InvalidPayload { schema: self.schema.clone(), report })
        }
    }
}

} // verus!
