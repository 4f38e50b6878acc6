use crate::types::key::Key;
use crate::types::uid::EntityUid;
use vstd::prelude::*;

verus! {

/// Who or what caused an event.
#[derive(Debug, PartialEq, Eq)]
pub enum EventOrigin {
    System,
    Referee,
    Action { action: Key, actor: EntityUid },
    Process { process: EntityUid },
    Import,
}

impl Clone for EventOrigin {
    fn clone(&self) -> (r: Self)
        ensures
            r == *self,
    {
        match self {
            EventOrigin::System => EventOrigin::System,
            EventOrigin::Referee => EventOrigin::Referee,
            EventOrigin::Action { action, actor } => EventOrigin::Action { action: action.clone(), actor: *actor },
            EventOrigin::Process { process } => EventOrigin::Process { process: *process },
            EventOrigin::Import => EventOrigin::Import,
        }
    }
}

} // verus!
