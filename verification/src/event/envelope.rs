use crate::event::event_type::EventTypeRef;
use crate::event::mutation::StateMutation;
use crate::event::origin::EventOrigin;
use crate::event::participant::EventParticipant;
use crate::schema::json::JsonValue;
use crate::types::time::{EventSequence, SimTime};
use crate::types::uid::{CorrelationUid, EntityUid, EventUid};
use vstd::prelude::*;

verus! {

/// One committed or proposed event.
#[derive(Debug)]
pub struct EventEnvelope {
    pub uid: EventUid,
    pub sequence: EventSequence,
    pub sim_time: SimTime,
    pub event_type: EventTypeRef,
    pub origin: EventOrigin,
    pub cause: Option<EventUid>,
    pub correlation: Option<CorrelationUid>,
    pub participants: Vec<EventParticipant>,
    pub payload: JsonValue,
    pub mutations: Vec<StateMutation>,
}

/// The participants in `role`, in order.
pub open spec fn with_role(ps: Seq<EventParticipant>, role: Seq<char>) -> Seq<EventParticipant> {
    ps.filter(|p: EventParticipant| p.role@ == role)
}

impl EventEnvelope {
    /// The participants in this role, in order.
    pub fn participants_with_role(&self, role: &str) -> (r: Vec<&EventParticipant>)
        ensures
            r@.map_values(|p: &EventParticipant| *p) == with_role(self.participants@, role@),
    {
        let n = self.participants.len();
        let ghost all = self.participants@;
        let mut out: Vec<&EventParticipant> = Vec::new();
        for i in 0..n
            invariant
                n == all.len(),
                all == self.participants@,
                out@.map_values(|p: &EventParticipant| *p) == with_role(all.subrange(0, i as int), role@),
        {
            proof {
                assert(all.subrange(0, i + 1).drop_last() =~= all.subrange(0, i as int));
                reveal(Seq::filter);
            }
            let p = &self.participants[i];
            let ghost before = out@;
            if crate::text::str_eq(p.role.as_str(), role) {
                out.push(p);
                assert(out@.map_values(|p: &EventParticipant| *p) =~= before.map_values(
                    |p: &EventParticipant| *p,
                ).push(*p));
            }
        }
        assert(all.subrange(0, n as int) =~= all);
        out
    }

    /// The entity of the first participant in this role.
    pub fn participant(&self, role: &str) -> (r: Option<EntityUid>)
        ensures
            match r {
                Some(e) => exists|i: int|
                    0 <= i < self.participants@.len() && (#[trigger] self.participants@[i]).role@ == role@
                        && self.participants@[i].entity == e && forall|j: int|
                        0 <= j < i ==> (#[trigger] self.participants@[j]).role@ != role@,
                None => forall|i: int|
                    0 <= i < self.participants@.len() ==> (#[trigger] self.participants@[i]).role@ != role@,
            },
    {
        let n = self.participants.len();
        for i in 0..n
            invariant
                n == self.participants@.len(),
                forall|j: int| 0 <= j < i ==> (#[trigger] self.participants@[j]).role@ != role@,
        {
            if crate::text::str_eq(self.participants[i].role.as_str(), role) {
                return Some(self.participants[i].entity);
            }
        }
        None
    }
}

} // verus!
