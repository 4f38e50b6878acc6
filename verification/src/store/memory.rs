//! An in-memory store: the current world state and the committed history.
use crate::event::envelope::EventEnvelope;
use crate::store::commit::{CommitError, commit_event, commit_outcome, history_ordered, law_commit_keeps_history_ordered};
use crate::store::state::WorldState;
use crate::types::uid::{EntityUid, RelationshipUid};
use vstd::prelude::*;

verus! {

/// The current world state together with every event committed to it.
#[derive(Debug)]
pub struct MemoryStore {
    state: WorldState,
    events: Vec<EventEnvelope>,
}

impl Default for MemoryStore {
    fn default() -> (r: Self)
        ensures
            r.current()@ == crate::store::state::initial_view(),
            r.history() == Seq::<EventEnvelope>::empty(),
    {
        MemoryStore::new(WorldState::default())
    }
}

impl MemoryStore {
    #[verifier::type_invariant]
    closed spec fn ordered(self) -> bool {
        history_ordered(self.events@, self.state.sim_time@)
    }

    /// The current state.
    pub closed spec fn current(self) -> WorldState {
        self.state
    }

    /// The committed events, oldest first.
    pub closed spec fn history(self) -> Seq<EventEnvelope> {
        self.events@
    }

    /// The history is numbered from zero without gap, holds no identity
    /// twice, never goes back in time and stands no later than the state.
    pub fn lemma_ordered(&self)
        ensures
            history_ordered(self.history(), self.current().sim_time@),
    {
        proof {
            use_type_invariant(self);
        }
    }

    /// A store starting from `state` with no event committed yet.
    pub fn new(state: WorldState) -> (r: Self)
        ensures
            r.current() == state,
            r.history() == Seq::<EventEnvelope>::empty(),
    {
        MemoryStore { state, events: Vec::new() }
    }

    pub fn state(&self) -> (r: &WorldState)
        ensures
            *r == self.current(),
    {
        &self.state
    }

    pub fn events(&self) -> (r: &[EventEnvelope])
        ensures
            r@ == self.history(),
    {
        self.events.as_slice()
    }

    pub fn last_event(&self) -> (r: Option<&EventEnvelope>)
        ensures
            match r {
                Some(e) => self.history().len() > 0 && *e == self.history().last(),
                None => self.history().len() == 0,
            },
    {
        let n = self.events.len();
        if n == 0 {
            None
        } else {
            Some(&self.events[n - 1])
        }
    }

    /// Commits one event; on a refusal nothing changes.
    pub fn commit_event(&mut self, event: EventEnvelope) -> (r: Result<(), CommitError>)
        ensures
            match commit_outcome(old(self).current()@, old(self).history(), event) {
                Ok(t) => r is Ok && final(self).current()@ == t && final(self).history() == old(
                    self,
                ).history().push(event),
                Err(e) => r matches Err(x) && x@ == e && final(self).current() == old(self).current()
                    && final(self).history() == old(self).history(),
            },
    {
        proof {
            use_type_invariant(&*self);
        }
        let mut taken = MemoryStore::new(WorldState::default());
        std::mem::swap(&mut taken, self);
        let MemoryStore { mut state, mut events } = taken;
        let ghost s0 = state@;
        let ghost h0 = events@;
        let ghost ev = event;
        let r = commit_event(&mut state, &mut events, event);
        proof {
            if r is Ok {
                law_commit_keeps_history_ordered(s0, h0, ev);
            }
        }
        *self = MemoryStore { state, events };
        r
    }

    pub fn has_entity(&self, uid: EntityUid) -> (r: bool)
        ensures
            r == self.current()@.entities.contains_key(uid@),
    {
        self.state.entities.contains_key(&uid)
    }

    pub fn has_relationship(&self, uid: RelationshipUid) -> (r: bool)
        ensures
            r == self.current()@.relationships.contains_key(uid@),
    {
        self.state.relationships.contains_key(&uid)
    }
}

} // verus!
