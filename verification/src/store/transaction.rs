//! Atomic application of primitive state mutations.
use crate::entity::component::components_view;
use crate::entity::entity::EntityView;
use crate::event::mutation::StateMutation;
use crate::ordered_map::{OrderedMap, deep_view};
use crate::store::state::{WorldState, WorldStateView};
use crate::types::key::Key;
use crate::types::uid::{EntityUid, RelationshipUid, uuid_text};
use crate::text::join;
use vstd::prelude::*;
use vstd::string::*;

verus! {

#[derive(Clone, Copy, Debug, PartialEq, Eq, Structural)]
pub enum TransactionError {
    DuplicateEntity(EntityUid),
    MissingEntity(EntityUid),
    DuplicateRelationship(RelationshipUid),
    MissingRelationship(RelationshipUid),
    RevisionOverflow,
}

/// The text of a transaction error.
pub open spec fn transaction_error_text(e: TransactionError) -> Seq<char> {
    match e {
        TransactionError::DuplicateEntity(uid) => "entity already exists: "@ + uuid_text(uid@),
        TransactionError::MissingEntity(uid) => "entity does not exist: "@ + uuid_text(uid@),
        TransactionError::DuplicateRelationship(uid) => "relationship already exists: "@ + uuid_text(uid@),
        TransactionError::MissingRelationship(uid) => "relationship does not exist: "@ + uuid_text(uid@),
        TransactionError::RevisionOverflow => "state revision overflowed"@,
    }
}

impl TransactionError {
    pub fn message(&self) -> (r: String)
        ensures
            r@ == transaction_error_text(*self),
    {
        match self {
            TransactionError::DuplicateEntity(uid) => join(
                String::from_str("entity already exists: "),
                uid.to_string().as_str(),
            ),
            TransactionError::MissingEntity(uid) => join(
                String::from_str("entity does not exist: "),
                uid.to_string().as_str(),
            ),
            TransactionError::DuplicateRelationship(uid) => join(
                String::from_str("relationship already exists: "),
                uid.to_string().as_str(),
            ),
            TransactionError::MissingRelationship(uid) => join(
                String::from_str("relationship does not exist: "),
                uid.to_string().as_str(),
            ),
            TransactionError::RevisionOverflow => String::from_str("state revision overflowed"),
        }
    }
}

/// The effect of one mutation on a state: the state it leads to, or why it
/// is refused.
pub open spec fn apply_one(s: WorldStateView, m: StateMutation) -> Result<WorldStateView, TransactionError> {
    match m {
        StateMutation::AddEntity { entity } => if s.entities.contains_key(entity.uid@) {
            Err(TransactionError::DuplicateEntity(entity.uid))
        } else {
            Ok(WorldStateView { entities: s.entities.insert(entity.uid@, entity@), ..s })
        },
        StateMutation::RemoveEntity { entity } => if !s.entities.contains_key(entity@) {
            Err(TransactionError::MissingEntity(entity))
        } else {
            Ok(
                WorldStateView {
                    entities: s.entities.remove(entity@),
                    positions: s.positions.remove(entity@),
                    orientations: s.orientations.remove(entity@),
                    linear_velocities: s.linear_velocities.remove(entity@),
                    angular_velocities: s.angular_velocities.remove(entity@),
                    ..s
                },
            )
        },
        StateMutation::SetComponent { entity, component } => if !s.entities.contains_key(entity@) {
            Err(TransactionError::MissingEntity(entity))
        } else {
            let e = s.entities[entity@];
            Ok(
                WorldStateView {
                    entities: s.entities.insert(
                        entity@,
                        EntityView { components: e.components.insert(component.schema.key@, component@), ..e },
                    ),
                    ..s
                },
            )
        },
        StateMutation::RemoveComponent { entity, component } => if !s.entities.contains_key(entity@) {
            Err(TransactionError::MissingEntity(entity))
        } else {
            let e = s.entities[entity@];
            Ok(
                WorldStateView {
                    entities: s.entities.insert(
                        entity@,
                        EntityView { components: e.components.remove(component@), ..e },
                    ),
                    ..s
                },
            )
        },
        StateMutation::AddRelationship { relationship } => if s.relationships.contains_key(
            relationship.uid@,
        ) {
            Err(TransactionError::DuplicateRelationship(relationship.uid))
        } else {
            Ok(
                WorldStateView {
                    relationships: s.relationships.insert(relationship.uid@, relationship@),
                    ..s
                },
            )
        },
        StateMutation::EndRelationship { relationship } => if !s.relationships.contains_key(
            relationship@,
        ) {
            Err(TransactionError::MissingRelationship(relationship))
        } else {
            Ok(WorldStateView { relationships: s.relationships.remove(relationship@), ..s })
        },
        StateMutation::SetPosition { entity, position } => if !s.entities.contains_key(entity@) {
            Err(TransactionError::MissingEntity(entity))
        } else {
            Ok(WorldStateView { positions: s.positions.insert(entity@, position), ..s })
        },
        StateMutation::SetOrientation { entity, orientation } => if !s.entities.contains_key(entity@) {
            Err(TransactionError::MissingEntity(entity))
        } else {
            Ok(WorldStateView { orientations: s.orientations.insert(entity@, orientation), ..s })
        },
        StateMutation::SetLinearVelocity { entity, velocity } => if !s.entities.contains_key(entity@) {
            Err(TransactionError::MissingEntity(entity))
        } else {
            Ok(WorldStateView { linear_velocities: s.linear_velocities.insert(entity@, velocity), ..s })
        },
        StateMutation::SetAngularVelocity { entity, velocity } => if !s.entities.contains_key(entity@) {
            Err(TransactionError::MissingEntity(entity))
        } else {
            Ok(WorldStateView { angular_velocities: s.angular_velocities.insert(entity@, velocity), ..s })
        },
    }
}

/// The first `n` mutations applied in order, stopping at the first refusal.
pub open spec fn apply_all(s: WorldStateView, ms: Seq<StateMutation>, n: int) -> Result<
    WorldStateView,
    TransactionError,
>
    decreases n,
{
    if n <= 0 {
        Ok(s)
    } else {
        match apply_all(s, ms, n - 1) {
            Err(e) => Err(e),
            Ok(t) => apply_one(t, ms[n - 1]),
        }
    }
}

/// The outcome of a transaction: every mutation applied, then the revision
/// advanced by one; or the first refusal, with nothing applied.
pub open spec fn transaction_outcome(s: WorldStateView, ms: Seq<StateMutation>) -> Result<
    WorldStateView,
    TransactionError,
> {
    match apply_all(s, ms, ms.len() as int) {
        Err(e) => Err(e),
        Ok(t) => if t.revision == u64::MAX {
            Err(TransactionError::RevisionOverflow)
        } else {
            Ok(WorldStateView { revision: (t.revision + 1) as u64, ..t })
        },
    }
}

proof fn lemma_deep_insert<K, V: View>(m: Map<K, V>, k: K, v: V)
    ensures
        deep_view(m.insert(k, v)) == deep_view(m).insert(k, v@),
{
    assert(deep_view(m.insert(k, v)) =~= deep_view(m).insert(k, v@));
}

proof fn lemma_deep_remove<K, V: View>(m: Map<K, V>, k: K)
    ensures
        deep_view(m.remove(k)) == deep_view(m).remove(k),
{
    assert(deep_view(m.remove(k)) =~= deep_view(m).remove(k));
}

/// Applies one mutation to `state`.
fn apply_mutation(state: &mut WorldState, mutation: &StateMutation) -> (r: Result<(), TransactionError>)
    ensures
        match apply_one(old(state)@, *mutation) {
            Ok(t) => r is Ok && final(state)@ == t,
            Err(e) => r == Err::<(), TransactionError>(e),
        },
{
    let ghost s = state@;
    match mutation {
        StateMutation::AddEntity { entity } => {
            if state.entities.contains_key(&entity.uid) {
                return Err(TransactionError::DuplicateEntity(entity.uid));
            }
            let copy = entity.clone();
            state.entities.insert(entity.uid, copy);
            proof {
                lemma_deep_insert(old(state).entities@, entity.uid@, copy);
            }
            assert(state@ =~= WorldStateView { entities: s.entities.insert(entity.uid@, entity@), ..s });
            Ok(())
        },
        StateMutation::RemoveEntity { entity } => {
            if state.entities.remove(entity).is_none() {
                return Err(TransactionError::MissingEntity(*entity));
            }
            state.positions.remove(entity);
            state.orientations.remove(entity);
            state.linear_velocities.remove(entity);
            state.angular_velocities.remove(entity);
            proof {
                lemma_deep_remove(old(state).entities@, entity@);
                lemma_deep_remove(old(state).positions@, entity@);
                lemma_deep_remove(old(state).orientations@, entity@);
                lemma_deep_remove(old(state).linear_velocities@, entity@);
                lemma_deep_remove(old(state).angular_velocities@, entity@);
            }
            Ok(())
        },
        StateMutation::SetComponent { entity, component } => {
            match state.entities.remove(entity) {
                None => Err(TransactionError::MissingEntity(*entity)),
                Some(target) => {
                    let mut target = target;
                    let ghost before = target;
                    let copy = component.clone();
                    target.set_component(copy);
                    proof {
                        assert(components_view(target.components@) =~= components_view(before.components@).insert(
                            component.schema.key@,
                            component@,
                        ));
                        assert(target@ == EntityView {
                            components: s.entities[entity@].components.insert(component.schema.key@, component@),
                            ..s.entities[entity@]
                        });
                    }
                    state.entities.insert(*entity, target);
                    proof {
                        lemma_deep_insert(old(state).entities@.remove(entity@), entity@, target);
                        lemma_deep_remove(old(state).entities@, entity@);
                        assert(state@.entities =~= s.entities.insert(entity@, target@));
                    }
                    Ok(())
                },
            }
        },
        StateMutation::RemoveComponent { entity, component } => {
            match state.entities.remove(entity) {
                None => Err(TransactionError::MissingEntity(*entity)),
                Some(target) => {
                    let mut target = target;
                    let ghost before = target;
                    target.components.remove(component);
                    proof {
                        assert(components_view(target.components@) =~= components_view(before.components@).remove(
                            component@,
                        ));
                        assert(target@ == EntityView {
                            components: s.entities[entity@].components.remove(component@),
                            ..s.entities[entity@]
                        });
                    }
                    state.entities.insert(*entity, target);
                    proof {
                        lemma_deep_insert(old(state).entities@.remove(entity@), entity@, target);
                        lemma_deep_remove(old(state).entities@, entity@);
                        assert(state@.entities =~= s.entities.insert(entity@, target@));
                    }
                    Ok(())
                },
            }
        },
        StateMutation::AddRelationship { relationship } => {
            if state.relationships.contains_key(&relationship.uid) {
                return Err(TransactionError::DuplicateRelationship(relationship.uid));
            }
            let copy = relationship.clone();
            state.relationships.insert(relationship.uid, copy);
            proof {
                lemma_deep_insert(old(state).relationships@, relationship.uid@, copy);
            }
            Ok(())
        },
        StateMutation::EndRelationship { relationship } => {
            if state.relationships.remove(relationship).is_none() {
                return Err(TransactionError::MissingRelationship(*relationship));
            }
            proof {
                lemma_deep_remove(old(state).relationships@, relationship@);
            }
            Ok(())
        },
        StateMutation::SetPosition { entity, position } => {
            if !state.entities.contains_key(entity) {
                return Err(TransactionError::MissingEntity(*entity));
            }
            state.positions.insert(*entity, position.clone());
            proof {
                lemma_deep_insert(old(state).positions@, entity@, *position);
            }
            Ok(())
        },
        StateMutation::SetOrientation { entity, orientation } => {
            if !state.entities.contains_key(entity) {
                return Err(TransactionError::MissingEntity(*entity));
            }
            state.orientations.insert(*entity, *orientation);
            proof {
                lemma_deep_insert(old(state).orientations@, entity@, *orientation);
            }
            Ok(())
        },
        StateMutation::SetLinearVelocity { entity, velocity } => {
            if !state.entities.contains_key(entity) {
                return Err(TransactionError::MissingEntity(*entity));
            }
            state.linear_velocities.insert(*entity, *velocity);
            proof {
                lemma_deep_insert(old(state).linear_velocities@, entity@, *velocity);
            }
            Ok(())
        },
        StateMutation::SetAngularVelocity { entity, velocity } => {
            if !state.entities.contains_key(entity) {
                return Err(TransactionError::MissingEntity(*entity));
            }
            state.angular_velocities.insert(*entity, *velocity);
            proof {
                lemma_deep_insert(old(state).angular_velocities@, entity@, *velocity);
            }
            Ok(())
        },
    }
}

/// Applies a set of primitive mutations atomically: every one of them and
/// a revision step, or, at the first refusal, none.
pub fn apply_mutations(state: &mut WorldState, mutations: &[StateMutation]) -> (r: Result<
    (),
    TransactionError,
>)
    ensures
        match transaction_outcome(old(state)@, mutations@) {
            Ok(t) => r is Ok && final(state)@ == t,
            Err(e) => r == Err::<(), TransactionError>(e) && *final(state) == *old(state),
        },
{
    let mut candidate = state.clone();
    let n = mutations.len();
    for i in 0..n
        invariant
            n == mutations@.len(),
            *state == *old(state),
            apply_all(old(state)@, mutations@, i as int) == Ok::<WorldStateView, TransactionError>(candidate@),
    {
        match apply_mutation(&mut candidate, &mutations[i]) {
            Ok(()) => {},
            Err(e) => {
                proof {
                    lemma_apply_all_stops(old(state)@, mutations@, i + 1, n as int);
                }
                return Err(e);
            },
        }
    }
    match candidate.revision.next() {
        Ok(next) => {
            candidate.revision = next;
        },
        Err(_) => {
            return Err(TransactionError::RevisionOverflow);
        },
    }
    *state = candidate;
    Ok(())
}

/// Mutations leave the revision and the simulation time alone.
pub proof fn lemma_apply_all_keeps_clock(s: WorldStateView, ms: Seq<StateMutation>, n: int)
    ensures
        apply_all(s, ms, n) matches Ok(t) ==> t.revision == s.revision && t.sim_time == s.sim_time,
    decreases n,
{
    if n > 0 {
        lemma_apply_all_keeps_clock(s, ms, n - 1);
    }
}

/// What one applied mutation does to the state it applies to: the entity,
/// relationship, component or motion value it names is there afterwards
/// with the given content, or is gone afterwards; refusals come only from
/// what the state held before.
pub proof fn law_mutation_effects(s: WorldStateView, m: StateMutation)
    ensures
        apply_one(s, m) matches Ok(t) ==> match m {
            StateMutation::AddEntity { entity } => !s.entities.contains_key(entity.uid@)
                && t.entities.contains_key(entity.uid@) && t.entities[entity.uid@] == entity@,
            StateMutation::RemoveEntity { entity } => s.entities.contains_key(entity@)
                && !t.entities.contains_key(entity@) && !t.positions.contains_key(entity@)
                && !t.orientations.contains_key(entity@) && !t.linear_velocities.contains_key(entity@)
                && !t.angular_velocities.contains_key(entity@),
            StateMutation::SetComponent { entity, component } => t.entities.contains_key(entity@)
                && t.entities[entity@].components.contains_key(component.schema.key@)
                && t.entities[entity@].components[component.schema.key@] == component@,
            StateMutation::RemoveComponent { entity, component } => t.entities.contains_key(entity@)
                && !t.entities[entity@].components.contains_key(component@),
            StateMutation::AddRelationship { relationship } => !s.relationships.contains_key(
                relationship.uid@,
            ) && t.relationships.contains_key(relationship.uid@) && t.relationships[relationship.uid@]
                == relationship@,
            StateMutation::EndRelationship { relationship } => s.relationships.contains_key(relationship@)
                && !t.relationships.contains_key(relationship@),
            StateMutation::SetPosition { entity, position } => t.entities.contains_key(entity@)
                && t.positions.contains_key(entity@) && t.positions[entity@] == position,
            StateMutation::SetOrientation { entity, orientation } => t.entities.contains_key(entity@)
                && t.orientations.contains_key(entity@) && t.orientations[entity@] == orientation,
            StateMutation::SetLinearVelocity { entity, velocity } => t.entities.contains_key(entity@)
                && t.linear_velocities.contains_key(entity@) && t.linear_velocities[entity@] == velocity,
            StateMutation::SetAngularVelocity { entity, velocity } => t.entities.contains_key(entity@)
                && t.angular_velocities.contains_key(entity@) && t.angular_velocities[entity@] == velocity,
        },
        apply_one(s, m) is Err ==> match m {
            StateMutation::AddEntity { entity } => s.entities.contains_key(entity.uid@),
            StateMutation::AddRelationship { relationship } => s.relationships.contains_key(
                relationship.uid@,
            ),
            StateMutation::EndRelationship { relationship } => !s.relationships.contains_key(
                relationship@,
            ),
            StateMutation::RemoveEntity { entity } => !s.entities.contains_key(entity@),
            StateMutation::SetComponent { entity, .. } => !s.entities.contains_key(entity@),
            StateMutation::RemoveComponent { entity, .. } => !s.entities.contains_key(entity@),
            StateMutation::SetPosition { entity, .. } => !s.entities.contains_key(entity@),
            StateMutation::SetOrientation { entity, .. } => !s.entities.contains_key(entity@),
            StateMutation::SetLinearVelocity { entity, .. } => !s.entities.contains_key(entity@),
            StateMutation::SetAngularVelocity { entity, .. } => !s.entities.contains_key(entity@),
        },
{
}

/// Whether `m` may bring the relationship `r` into a state: only adding it does.
pub open spec fn adds_relationship(m: StateMutation, r: u128) -> bool {
    m matches StateMutation::AddRelationship { relationship } && relationship.uid@ == r
}

/// A mutation other than adding `r` never brings `r` into the state.
proof fn lemma_relationship_not_added(s: WorldStateView, m: StateMutation, r: u128)
    requires
        apply_one(s, m) is Ok,
        !adds_relationship(m, r),
        !s.relationships.contains_key(r),
    ensures
        !apply_one(s, m)->Ok_0.relationships.contains_key(r),
{
}

proof fn lemma_apply_all_prefix(s: WorldStateView, ms: Seq<StateMutation>, m: int, n: int)
    requires
        0 <= m <= n,
        apply_all(s, ms, n) is Ok,
    ensures
        apply_all(s, ms, m) is Ok,
    decreases n - m,
{
    if m < n {
        lemma_apply_all_prefix(s, ms, m, n - 1);
    }
}

/// After a successful transaction, a relationship that one of its
/// mutations ended is not in the state, unless a later mutation added it
/// again.
pub proof fn law_ended_relationship_is_gone(s: WorldStateView, ms: Seq<StateMutation>, i: int, r: u128)
    requires
        transaction_outcome(s, ms) is Ok,
        0 <= i < ms.len(),
        ms[i] matches StateMutation::EndRelationship { relationship } && relationship@ == r,
        forall|j: int| i < j < ms.len() ==> !adds_relationship(#[trigger] ms[j], r),
    ensures
        !transaction_outcome(s, ms)->Ok_0.relationships.contains_key(r),
{
    lemma_apply_all_prefix(s, ms, i + 1, ms.len() as int);
    lemma_apply_all_prefix(s, ms, i, ms.len() as int);
    law_mutation_effects(apply_all(s, ms, i)->Ok_0, ms[i]);
    lemma_stays_gone(s, ms, i + 1, r);
    assert(transaction_outcome(s, ms)->Ok_0.relationships == apply_all(s, ms, ms.len() as int)->Ok_0.relationships);
}

proof fn lemma_stays_gone(s: WorldStateView, ms: Seq<StateMutation>, k: int, r: u128)
    requires
        0 <= k <= ms.len(),
        apply_all(s, ms, ms.len() as int) is Ok,
        apply_all(s, ms, k) is Ok,
        !apply_all(s, ms, k)->Ok_0.relationships.contains_key(r),
        forall|j: int| k <= j < ms.len() ==> !adds_relationship(#[trigger] ms[j], r),
    ensures
        !apply_all(s, ms, ms.len() as int)->Ok_0.relationships.contains_key(r),
    decreases ms.len() - k,
{
    if k < ms.len() {
        lemma_apply_all_prefix(s, ms, k + 1, ms.len() as int);
        lemma_relationship_not_added(apply_all(s, ms, k)->Ok_0, ms[k], r);
        lemma_stays_gone(s, ms, k + 1, r);
    }
}

/// A successful transaction advances the revision by exactly one and
/// leaves the simulation time alone.
pub proof fn law_transaction_steps_revision(s: WorldStateView, ms: Seq<StateMutation>)
    ensures
        transaction_outcome(s, ms) matches Ok(t) ==> t.revision == s.revision + 1 && t.sim_time
            == s.sim_time,
{
    lemma_apply_all_keeps_clock(s, ms, ms.len() as int);
}

/// Every position, orientation and velocity of a state belongs to one of
/// its entities.
pub open spec fn motion_attached(s: WorldStateView) -> bool {
    &&& forall|u: u128| #[trigger] s.positions.contains_key(u) ==> s.entities.contains_key(u)
    &&& forall|u: u128| #[trigger] s.orientations.contains_key(u) ==> s.entities.contains_key(u)
    &&& forall|u: u128| #[trigger] s.linear_velocities.contains_key(u) ==> s.entities.contains_key(u)
    &&& forall|u: u128| #[trigger] s.angular_velocities.contains_key(u) ==> s.entities.contains_key(u)
}

proof fn lemma_apply_one_keeps_motion_attached(s: WorldStateView, m: StateMutation)
    requires
        motion_attached(s),
        apply_one(s, m) is Ok,
    ensures
        motion_attached(apply_one(s, m)->Ok_0),
{
}

proof fn lemma_apply_all_keeps_motion_attached(s: WorldStateView, ms: Seq<StateMutation>, n: int)
    requires
        motion_attached(s),
        apply_all(s, ms, n) is Ok,
    ensures
        motion_attached(apply_all(s, ms, n)->Ok_0),
    decreases n,
{
    if n > 0 {
        lemma_apply_all_keeps_motion_attached(s, ms, n - 1);
        lemma_apply_one_keeps_motion_attached(apply_all(s, ms, n - 1)->Ok_0, ms[n - 1]);
    }
}

/// Transactions never leave a position, orientation or velocity behind for
/// an entity that is not there: removing an entity removes its motion
/// state, and motion state is set only for entities that exist.
pub proof fn law_transactions_keep_motion_attached(s: WorldStateView, ms: Seq<StateMutation>)
    requires
        motion_attached(s),
        transaction_outcome(s, ms) is Ok,
    ensures
        motion_attached(transaction_outcome(s, ms)->Ok_0),
{
    lemma_apply_all_keeps_motion_attached(s, ms, ms.len() as int);
}

proof fn lemma_apply_all_stops(s: WorldStateView, ms: Seq<StateMutation>, m: int, n: int)
    requires
        0 < m <= n,
        apply_all(s, ms, m) is Err,
    ensures
        apply_all(s, ms, n) == apply_all(s, ms, m),
    decreases n - m,
{
    if n > m {
        lemma_apply_all_stops(s, ms, m, n - 1);
    }
}

} // verus!
