//! Committing one event to the world state and the event history.
use crate::event::envelope::EventEnvelope;
use crate::store::state::{WorldState, WorldStateView};
use crate::store::transaction::{TransactionError, apply_mutations, law_transaction_steps_revision, transaction_error_text, transaction_outcome};
use crate::types::time::{EventSequence, SimTime};
use crate::types::uid::{EventUid, uuid_text};
use crate::text::{i64_text, int_text, join, u64_text};
use vstd::prelude::*;
use vstd::string::*;

verus! {

#[derive(Clone, Copy, Debug, PartialEq, Eq, Structural)]
pub enum CommitError {
    DuplicateEvent(EventUid),
    SequenceMismatch { expected: EventSequence, actual: EventSequence },
    SequenceOverflow,
    TimeRegression { current: SimTime, event: SimTime },
    Mutation(TransactionError),
}

/// The text of a commit error.
pub open spec fn commit_error_text(e: CommitError) -> Seq<char> {
    match e {
        CommitError::DuplicateEvent(uid) => "event already committed: "@ + uuid_text(uid@),
        CommitError::SequenceMismatch { expected, actual } => "event sequence mismatch: expected "@
            + int_text(expected@ as int) + ", received "@ + int_text(actual@ as int),
        CommitError::SequenceOverflow => "event sequence overflowed"@,
        CommitError::TimeRegression { current, event } => "event time regressed from "@ + int_text(
            current@ as int,
        ) + " ms to "@ + int_text(event@ as int) + " ms"@,
        CommitError::Mutation(error) => "event mutation failed: "@ + transaction_error_text(error),
    }
}

impl CommitError {
    pub fn message(&self) -> (r: String)
        ensures
            r@ == commit_error_text(*self),
    {
        match self {
            CommitError::DuplicateEvent(uid) => join(
                String::from_str("event already committed: "),
                uid.to_string().as_str(),
            ),
            CommitError::SequenceMismatch { expected, actual } => {
                let out = join(String::from_str("event sequence mismatch: expected "), u64_text(expected.get()).as_str());
                let out = join(out, ", received ");
                join(out, u64_text(actual.get()).as_str())
            },
            CommitError::SequenceOverflow => String::from_str("event sequence overflowed"),
            CommitError::TimeRegression { current, event } => {
                let out = join(String::from_str("event time regressed from "), i64_text(current.as_millis()).as_str());
                let out = join(out, " ms to ");
                let out = join(out, i64_text(event.as_millis()).as_str());
                join(out, " ms")
            },
            CommitError::Mutation(error) => join(
                String::from_str("event mutation failed: "),
                error.message().as_str(),
            ),
        }
    }
}

/// A commit error as contracts see it.
pub enum CommitErrorView {
    DuplicateEvent(u128),
    SequenceMismatch { expected: u64, actual: u64 },
    SequenceOverflow,
    TimeRegression { current: i64, event: i64 },
    Mutation(TransactionError),
}

impl View for CommitError {
    type V = CommitErrorView;

    open spec fn view(&self) -> CommitErrorView {
        match *self {
            CommitError::DuplicateEvent(u) => CommitErrorView::DuplicateEvent(u@),
            CommitError::SequenceMismatch { expected, actual } =>
                CommitErrorView::SequenceMismatch { expected: expected@, actual: actual@ },
            CommitError::SequenceOverflow => CommitErrorView::SequenceOverflow,
            CommitError::TimeRegression { current, event } =>
                CommitErrorView::TimeRegression { current: current@, event: event@ },
            CommitError::Mutation(e) => CommitErrorView::Mutation(e),
        }
    }
}

impl From<TransactionError> for CommitError {
    fn from(value: TransactionError) -> (r: Self) {
        CommitError::Mutation(value)
    }
}

impl vstd::std_specs::convert::FromSpecImpl<TransactionError> for CommitError {
    open spec fn obeys_from_spec() -> bool {
        true
    }

    open spec fn from_spec(value: TransactionError) -> Self {
        CommitError::Mutation(value)
    }
}

/// Whether some event of `history` carries the identity `uid`.
pub open spec fn committed(history: Seq<EventEnvelope>, uid: u128) -> bool {
    exists|i: int| 0 <= i < history.len() && (#[trigger] history[i]).uid@ == uid
}

/// The sequence number the next event must carry: zero first, then one
/// past the last event's; none when the last is the greatest there is.
pub open spec fn expected_sequence(history: Seq<EventEnvelope>) -> Option<u64> {
    if history.len() == 0 {
        Some(0)
    } else if history.last().sequence@ == u64::MAX {
        None
    } else {
        Some((history.last().sequence@ + 1) as u64)
    }
}

/// The outcome of committing `event` after `history` to a state `s`: a new
/// event, in sequence, not earlier than the state, whose mutations all
/// apply; the state then stands at the event's time.
pub open spec fn commit_outcome(s: WorldStateView, history: Seq<EventEnvelope>, event: EventEnvelope) -> Result<
    WorldStateView,
    CommitErrorView,
> {
    if committed(history, event.uid@) {
        Err(CommitErrorView::DuplicateEvent(event.uid@))
    } else {
        match expected_sequence(history) {
            None => Err(CommitErrorView::SequenceOverflow),
            Some(expected) => if event.sequence@ != expected {
                Err(CommitErrorView::SequenceMismatch { expected, actual: event.sequence@ })
            } else if event.sim_time@ < s.sim_time {
                Err(CommitErrorView::TimeRegression { current: s.sim_time, event: event.sim_time@ })
            } else {
                match transaction_outcome(s, event.mutations@) {
                    Err(e) => Err(CommitErrorView::Mutation(e)),
                    Ok(t) => Ok(WorldStateView { sim_time: event.sim_time@, ..t }),
                }
            },
        }
    }
}

/// Commits one event: checks it against the history and the state, applies
/// its mutations atomically, advances the state's time to the event's and
/// appends the event; on a refusal neither the state nor the history changes.
pub fn commit_event(state: &mut WorldState, history: &mut Vec<EventEnvelope>, event: EventEnvelope) -> (r:
    Result<(), CommitError>)
    ensures
        match commit_outcome(old(state)@, old(history)@, event) {
            Ok(t) => r is Ok && final(state)@ == t && final(history)@ == old(history)@.push(event),
            Err(e) => r matches Err(x) && x@ == e && *final(state) == *old(state) && final(history)@ == old(
                history,
            )@,
        },
{
    let n = history.len();
    for i in 0..n
        invariant
            n == history@.len(),
            forall|j: int| 0 <= j < i ==> (#[trigger] history@[j]).uid@ != event.uid@,
    {
        if history[i].uid.as_uuid() == event.uid.as_uuid() {
            return Err(CommitError::DuplicateEvent(event.uid));
        }
    }
    let expected = if n == 0 {
        EventSequence::zero()
    } else {
        match history[n - 1].sequence.next() {
            Some(next) => next,
            None => {
                return Err(CommitError::SequenceOverflow);
            },
        }
    };
    if event.sequence.get() != expected.get() {
        return Err(CommitError::SequenceMismatch { expected, actual: event.sequence });
    }
    if event.sim_time.lt(state.sim_time) {
        return Err(CommitError::TimeRegression { current: state.sim_time, event: event.sim_time });
    }
    match apply_mutations(state, event.mutations.as_slice()) {
        Ok(()) => {},
        Err(e) => {
            return Err(CommitError::Mutation(e));
        },
    }
    state.sim_time = event.sim_time;
    history.push(event);
    Ok(())
}

/// A history is in order for a state at time `now`: the events are
/// numbered from zero without gap, no identity occurs twice, their times
/// never go back, and none is later than `now`.
pub open spec fn history_ordered(events: Seq<EventEnvelope>, now: i64) -> bool {
    &&& forall|i: int| 0 <= i < events.len() ==> (#[trigger] events[i]).sequence@ == i
    &&& forall|i: int, j: int|
        0 <= i < j < events.len() ==> (#[trigger] events[i]).uid@ != (#[trigger] events[j]).uid@
    &&& forall|i: int, j: int|
        0 <= i < j < events.len() ==> (#[trigger] events[i]).sim_time@ <= (#[trigger] events[j]).sim_time@
    &&& forall|i: int| 0 <= i < events.len() ==> (#[trigger] events[i]).sim_time@ <= now
}

/// A successful commit keeps the history in order, takes the state to the
/// event's time, which is not earlier than before, and advances the
/// revision by exactly one.
pub proof fn law_commit_keeps_history_ordered(
    s: WorldStateView,
    history: Seq<EventEnvelope>,
    event: EventEnvelope,
)
    requires
        history_ordered(history, s.sim_time),
        commit_outcome(s, history, event) is Ok,
    ensures
        history_ordered(history.push(event), commit_outcome(s, history, event)->Ok_0.sim_time),
        commit_outcome(s, history, event)->Ok_0.sim_time == event.sim_time@,
        s.sim_time <= event.sim_time@,
        commit_outcome(s, history, event)->Ok_0.revision == s.revision + 1,
        event.sequence@ == history.len(),
{
    law_transaction_steps_revision(s, event.mutations@);
    let h = history.push(event);
    if history.len() > 0 {
        assert(history.last().sequence@ == history.len() - 1);
    }
    assert forall|i: int, j: int| 0 <= i < j < h.len() implies (#[trigger] h[i]).uid@ != (#[trigger] h[j]).uid@ by {
        if j == history.len() {
            assert(h[i] == history[i]);
        } else {
            assert(h[i] == history[i]);
            assert(h[j] == history[j]);
        }
    }
    assert forall|i: int, j: int| 0 <= i < j < h.len() implies (#[trigger] h[i]).sim_time@ <= (
    #[trigger] h[j]).sim_time@ by {
        assert(h[i] == history[i]);
        if j < history.len() {
            assert(h[j] == history[j]);
        }
    }
    assert forall|i: int| 0 <= i < h.len() implies (#[trigger] h[i]).sequence@ == i by {
        if i < history.len() {
            assert(h[i] == history[i]);
        }
    }
    assert forall|i: int| 0 <= i < h.len() implies (#[trigger] h[i]).sim_time@ <= event.sim_time@ by {
        if i < history.len() {
            assert(h[i] == history[i]);
        }
    }
}

} // verus!
