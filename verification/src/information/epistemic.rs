use crate::schema::json::{JsonData, JsonValue};
use vstd::prelude::*;

verus! {

#[derive(Clone, Copy, Debug, PartialEq, Eq, Structural)]
pub enum EpistemicKind {
    Exact,
    Approximate,
    Range,
    Qualitative,
    PossibleSet,
    Unknown,
    Unassessed,
    Contradicted,
}

/// One claim, with how well it is known.
#[derive(Debug)]
pub struct EpistemicValue {
    pub kind: EpistemicKind,
    pub value: Option<JsonValue>,
}

/// A claim as contracts see it.
pub struct EpistemicValueView {
    pub kind: EpistemicKind,
    pub value: Option<JsonData>,
}

impl View for EpistemicValue {
    type V = EpistemicValueView;

    open spec fn view(&self) -> EpistemicValueView {
        EpistemicValueView {
            kind: self.kind,
            value: match self.value {
                Some(v) => Some(v@),
                None => None,
            },
        }
    }
}

impl Clone for EpistemicValue {
    fn clone(&self) -> (r: Self)
        ensures
            r@ == self@,
    {
        let value = match &self.value {
            Some(v) => Some(v.clone()),
            None => None,
        };
        EpistemicValue { kind: self.kind, value }
    }
}

impl crate::ordered_map::CloneView for EpistemicValue {
    fn clone_view(&self) -> (r: Self) {
        self.clone()
    }
}

} // verus!
