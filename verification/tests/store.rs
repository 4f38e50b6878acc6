use vbf::compiler::compiled::{compile_layer0, CompileError};
use vbf::compiler::source::Layer0Source;
use vbf::entity::class::EntityClass;
use vbf::entity::component::ComponentData;
use vbf::entity::entity::Entity;
use vbf::event::envelope::EventEnvelope;
use vbf::event::event_type::{EventTypeRef, EventTypeRefError};
use vbf::event::mutation::StateMutation;
use vbf::event::origin::EventOrigin;
use vbf::event::participant::EventParticipant;
use vbf::package::manifest::{PackageKind, PackageManifest};
use vbf::schema::component::ComponentSchemaRef;
use vbf::schema::json::JsonValue;
use vbf::spatial::motion::Velocity3;
use vbf::store::commit::{commit_event, CommitError};
use vbf::store::memory::MemoryStore;
use vbf::store::state::WorldState;
use vbf::store::transaction::{apply_mutations, TransactionError};
use vbf::types::display_name::DisplayName;
use vbf::types::key::Key;
use vbf::types::revision::StateRevision;
use vbf::types::time::{EventSequence, SimTime};
use vbf::types::uid::{EntityUid, EventUid, PackageUid};

fn event(sequence: u64, sim_time_ms: i64) -> EventEnvelope {
    EventEnvelope {
        uid: EventUid::new(),
        sequence: EventSequence::new(sequence),
        sim_time: SimTime::from_millis(sim_time_ms),
        event_type: EventTypeRef::new(Key::new("event.test").expect("valid test key"), 1)
            .expect("valid event type version"),
        origin: EventOrigin::System,
        cause: None,
        correlation: None,
        participants: Vec::new(),
        payload: JsonValue::Null,
        mutations: Vec::new(),
    }
}

#[test]
fn event_type_rejects_zero_version() {
    assert!(matches!(
        EventTypeRef::new(Key::new("event.test").unwrap(), 0),
        Err(EventTypeRefError::ZeroVersion)
    ));
}

#[test]
fn committed_event_advances_time_revision_and_history() {
    let mut state = WorldState::default();
    let initial_revision = state.revision;
    let mut history = Vec::new();
    commit_event(&mut state, &mut history, event(0, 1_250)).expect("first event should commit");
    assert_eq!(state.sim_time, SimTime::from_millis(1_250));
    assert!(state.revision > initial_revision);
    assert_eq!(history.len(), 1);
}

#[test]
fn sequence_gap_is_rejected_without_mutating_state() {
    let mut state = WorldState::default();
    let initial_revision = state.revision;
    let mut history = Vec::new();
    let result = commit_event(&mut state, &mut history, event(1, 1_250));
    assert!(matches!(result, Err(CommitError::SequenceMismatch { .. })));
    assert_eq!(state.revision, initial_revision);
    assert!(history.is_empty());
}

#[test]
fn simulation_time_cannot_regress_after_a_commit() {
    let mut state = WorldState::default();
    let mut history = Vec::new();
    commit_event(&mut state, &mut history, event(0, 1_250)).expect("first event should commit");
    let result = commit_event(&mut state, &mut history, event(1, 1_249));
    assert!(matches!(result, Err(CommitError::TimeRegression { .. })));
    assert_eq!(state.sim_time, SimTime::from_millis(1_250));
    assert_eq!(history.len(), 1);
}

// ----------------------------------------------------------------------
// Further cases
// ----------------------------------------------------------------------

fn vehicle(key: &str) -> Entity {
    Entity::new(EntityUid::new(), Key::new(key).unwrap(), DisplayName::new(key).unwrap(), EntityClass::Asset)
}

#[test]
fn failed_transaction_changes_nothing() {
    let mut state = WorldState::default();
    let tank = vehicle("entity.test.tank");
    let tank_uid = tank.uid;
    let missing = EntityUid::new();
    let mutations = vec![
        StateMutation::AddEntity { entity: tank },
        StateMutation::SetLinearVelocity { entity: missing, velocity: Velocity3::default() },
    ];
    assert_eq!(apply_mutations(&mut state, &mutations), Err(TransactionError::MissingEntity(missing)));
    assert_eq!(state.entities.len(), 0);
    assert_eq!(state.revision, StateRevision::initial());
    let mutations = vec![
        StateMutation::SetLinearVelocity { entity: tank_uid, velocity: Velocity3::default() },
    ];
    assert_eq!(apply_mutations(&mut state, &mutations), Err(TransactionError::MissingEntity(tank_uid)));
}

#[test]
fn transaction_applies_every_mutation_and_steps_revision() {
    let mut state = WorldState::default();
    let tank = vehicle("entity.test.tank");
    let tank_uid = tank.uid;
    let component = ComponentData::new(
        ComponentSchemaRef::new(Key::new("component.test_state").unwrap(), 1).unwrap(),
        JsonValue::Null,
    );
    let velocity = Velocity3 { x_mm_per_second: 1, y_mm_per_second: 2, z_mm_per_second: 3 };
    let mutations = vec![
        StateMutation::AddEntity { entity: tank },
        StateMutation::SetComponent { entity: tank_uid, component },
        StateMutation::SetLinearVelocity { entity: tank_uid, velocity },
    ];
    apply_mutations(&mut state, &mutations).unwrap();
    assert_eq!(state.revision.get(), 1);
    let stored = state.entities.get(&tank_uid).unwrap();
    assert!(stored.component("component.test_state").is_some());
    assert_eq!(state.linear_velocities.get(&tank_uid), Some(&velocity));

    let removal = vec![StateMutation::RemoveEntity { entity: tank_uid }];
    apply_mutations(&mut state, &removal).unwrap();
    assert_eq!(state.revision.get(), 2);
    assert!(state.entities.get(&tank_uid).is_none());
    assert!(state.linear_velocities.get(&tank_uid).is_none());
    assert_eq!(apply_mutations(&mut state, &removal), Err(TransactionError::MissingEntity(tank_uid)));
}

#[test]
fn adding_an_entity_twice_is_refused() {
    let mut state = WorldState::default();
    let tank = vehicle("entity.test.tank");
    let uid = tank.uid;
    let mutations = vec![StateMutation::AddEntity { entity: tank.clone() }, StateMutation::AddEntity { entity: tank }];
    assert_eq!(apply_mutations(&mut state, &mutations), Err(TransactionError::DuplicateEntity(uid)));
}

#[test]
fn revision_overflow_refuses_the_transaction() {
    let mut state = WorldState::default();
    state.revision = StateRevision::new(u64::MAX);
    assert_eq!(apply_mutations(&mut state, &[]), Err(TransactionError::RevisionOverflow));
    assert_eq!(state.revision.get(), u64::MAX);
}

#[test]
fn memory_store_keeps_an_ordered_history() {
    let mut store = MemoryStore::new(WorldState::default());
    assert!(store.last_event().is_none());
    let first = event(0, 100);
    let first_uid = first.uid;
    store.commit_event(first).unwrap();
    store.commit_event(event(1, 100)).unwrap();
    assert_eq!(store.events().len(), 2);
    assert_eq!(store.last_event().unwrap().sequence.get(), 1);
    assert_eq!(store.state().revision.get(), 2);
    let mut duplicate = event(2, 100);
    duplicate.uid = first_uid;
    assert_eq!(store.commit_event(duplicate), Err(CommitError::DuplicateEvent(first_uid)));
    assert_eq!(store.events().len(), 2);
    let gap = event(5, 100);
    assert_eq!(
        store.commit_event(gap),
        Err(CommitError::SequenceMismatch { expected: EventSequence::new(2), actual: EventSequence::new(5) })
    );
}

#[test]
fn memory_store_reports_entities_added_by_events() {
    let mut store = MemoryStore::new(WorldState::default());
    let tank = vehicle("entity.test.tank");
    let uid = tank.uid;
    let mut add = event(0, 10);
    add.mutations.push(StateMutation::AddEntity { entity: tank });
    store.commit_event(add).unwrap();
    assert!(store.has_entity(uid));
    assert!(!store.has_entity(EntityUid::new()));
    let mut bad = event(1, 20);
    bad.mutations.push(StateMutation::RemoveEntity { entity: EntityUid::new() });
    assert!(matches!(store.commit_event(bad), Err(CommitError::Mutation(TransactionError::MissingEntity(_)))));
    assert_eq!(store.state().sim_time, SimTime::from_millis(10));
}

#[test]
fn event_participants_are_found_by_role() {
    let shooter = EntityUid::new();
    let target = EntityUid::new();
    let mut e = event(0, 0);
    e.participants.push(EventParticipant::new(Key::new("shooter").unwrap(), shooter));
    e.participants.push(EventParticipant::new(Key::new("target").unwrap(), target));
    assert_eq!(e.participant("target"), Some(target));
    assert_eq!(e.participant("observer"), None);
    assert_eq!(e.participants_with_role("shooter").len(), 1);
}

fn manifest() -> PackageManifest {
    PackageManifest {
        uid: PackageUid::new(),
        key: Key::new("package.test").unwrap(),
        name: DisplayName::new("Test").unwrap(),
        kind: PackageKind::Scenario,
        version: "1.0.0".to_string(),
        layer0_schema_version: 1,
        dependencies: vec![],
    }
}

fn source(entities: Vec<Entity>) -> Layer0Source {
    Layer0Source {
        manifest: manifest(),
        definitions: vec![],
        entities,
        relationships: vec![],
        coordinate_frames: vec![],
        regions: vec![],
        grids: vec![],
        information: vec![],
    }
}

#[test]
fn compile_builds_initial_state_and_refuses_duplicates() {
    let a = vehicle("entity.test.a");
    let b = vehicle("entity.test.b");
    let a_uid = a.uid;
    let compiled = compile_layer0(source(vec![a.clone(), b])).unwrap();
    assert_eq!(compiled.initial_state.entities.len(), 2);
    assert!(compiled.initial_state.entities.get(&a_uid).is_some());
    assert_eq!(compiled.initial_state.revision.get(), 0);
    assert_eq!(compiled.source.entities.len(), 2);

    let err = compile_layer0(source(vec![a.clone(), a.clone()])).unwrap_err();
    assert_eq!(err, CompileError::DuplicateEntityUid(a_uid));
    let twin = vehicle("entity.test.a");
    let err = compile_layer0(source(vec![a, twin])).unwrap_err();
    assert_eq!(err, CompileError::DuplicateEntityKey(Key::new("entity.test.a").unwrap()));
}

#[test]
fn errors_explain_themselves() {
    let uid = EntityUid::from_uuid(0x0123_4567_89ab_cdef_0123_4567_89ab_cdef).unwrap();
    assert_eq!(
        TransactionError::MissingEntity(uid).message(),
        "entity does not exist: 01234567-89ab-cdef-0123-456789abcdef"
    );
    assert_eq!(TransactionError::RevisionOverflow.message(), "state revision overflowed");
    assert_eq!(
        CommitError::SequenceMismatch { expected: EventSequence::new(2), actual: EventSequence::new(5) }.message(),
        "event sequence mismatch: expected 2, received 5"
    );
    assert_eq!(
        CommitError::TimeRegression { current: SimTime::from_millis(1_250), event: SimTime::from_millis(-3) }
            .message(),
        "event time regressed from 1250 ms to -3 ms"
    );
    assert_eq!(
        CommitError::Mutation(TransactionError::RevisionOverflow).message(),
        "event mutation failed: state revision overflowed"
    );
    assert_eq!(
        CompileError::DuplicateEntityKey(Key::new("entity.a").unwrap()).message(),
        "duplicate entity key: entity.a"
    );
    assert_eq!(EventTypeRefError::ZeroVersion.message(), "event type version must be at least 1");
}
