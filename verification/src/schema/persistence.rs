use crate::schema::context::SchemaContext;
use vstd::prelude::*;

verus! {

/// Declares where a field is allowed to exist.
#[derive(Clone, Copy, Debug, PartialEq, Eq, Structural, Hash)]
pub enum PersistenceClass {
    /// Reusable content/template data. Never authoritative instance state.
    Definition,
    /// Per-instance state fixed at scenario boot and not ordinarily mutated.
    Initial,
    /// Authoritative instance state that may change through validated mutations.
    Mutable,
    /// Data that belongs only inside an event record.
    Event,
    /// Read-only output calculated from other state.
    Derived,
    /// Temporary UI/cache/session data with no canonical persistence.
    Ephemeral,
}

/// Which contexts each persistence class may appear in.
pub open spec fn spec_allows(class: PersistenceClass, context: SchemaContext) -> bool {
    match class {
        PersistenceClass::Definition => context == SchemaContext::Definition,
        PersistenceClass::Initial => context == SchemaContext::InitialState || context
            == SchemaContext::RuntimeState,
        PersistenceClass::Mutable => context == SchemaContext::InitialState || context
            == SchemaContext::RuntimeState,
        PersistenceClass::Event => context == SchemaContext::Event,
        PersistenceClass::Derived => context == SchemaContext::Derived,
        PersistenceClass::Ephemeral => context == SchemaContext::Ephemeral,
    }
}

impl PersistenceClass {
    /// Whether a field of this class may legally appear in `context`.
    pub fn allows(self, context: SchemaContext) -> (r: bool)
        ensures
            r == spec_allows(self, context),
    {
        match self {
            PersistenceClass::Definition => matches!(context, SchemaContext::Definition),
            PersistenceClass::Initial => matches!(
                context,
                SchemaContext::InitialState | SchemaContext::RuntimeState
            ),
            PersistenceClass::Mutable => matches!(
                context,
                SchemaContext::InitialState | SchemaContext::RuntimeState
            ),
            PersistenceClass::Event => matches!(context, SchemaContext::Event),
            PersistenceClass::Derived => matches!(context, SchemaContext::Derived),
            PersistenceClass::Ephemeral => matches!(context, SchemaContext::Ephemeral),
        }
    }

    /// Canonical persisted data excludes derived and ephemeral values.
    pub fn is_canonical(self) -> (r: bool)
        ensures
            r == !(self == PersistenceClass::Derived || self == PersistenceClass::Ephemeral),
    {
        !matches!(self, PersistenceClass::Derived | PersistenceClass::Ephemeral)
    }
}

/// Each persistence class is admitted by exactly the contexts of its own
/// kind: definition data only in definitions, instance data (initial or
/// mutable) in initial and runtime state, event, derived and ephemeral data
/// only in their own contexts; in particular no context admits both
/// definition data and instance data.
pub proof fn law_persistence_contexts_are_disjoint(context: SchemaContext)
    ensures
        !(spec_allows(PersistenceClass::Definition, context) && spec_allows(
            PersistenceClass::Mutable,
            context,
        )),
        spec_allows(PersistenceClass::Initial, context) == spec_allows(
            PersistenceClass::Mutable,
            context,
        ),
{
}

} // verus!
