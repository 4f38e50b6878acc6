use vstd::prelude::*;
use vstd::string::*;

verus! {

/// The five core token classes share one entity identity universe.
#[derive(Clone, Copy, Debug, PartialEq, Eq, Structural, Hash)]
pub enum EntityClass {
    Actor,
    Asset,
    Process,
    Condition,
    ObjectiveTask,
}

/// What the derived `Debug` writes for a class.
pub open spec fn class_text(c: EntityClass) -> Seq<char> {
    match c {
        EntityClass::Actor => "Actor"@,
        EntityClass::Asset => "Asset"@,
        EntityClass::Process => "Process"@,
        EntityClass::Condition => "Condition"@,
        EntityClass::ObjectiveTask => "ObjectiveTask"@,
    }
}

impl EntityClass {
    /// The text the derived `Debug` writes for this class.
    pub fn debug_text(&self) -> (r: String)
        ensures
            r@ == class_text(*self),
    {
        match self {
            EntityClass::Actor => String::from_str("Actor"),
            EntityClass::Asset => String::from_str("Asset"),
            EntityClass::Process => String::from_str("Process"),
            EntityClass::Condition => String::from_str("Condition"),
            EntityClass::ObjectiveTask => String::from_str("ObjectiveTask"),
        }
    }
}

} // verus!
