use vstd::prelude::*;

verus! {

/// The kind of record currently being validated against a component schema.
#[derive(Clone, Copy, Debug, PartialEq, Eq, Structural, Hash)]
pub enum SchemaContext {
    Definition,
    InitialState,
    RuntimeState,
    Event,
    Derived,
    Ephemeral,
}

} // verus!
