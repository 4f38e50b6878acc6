use vbf::entity::catalog::EntityCatalog;
use vbf::entity::class::EntityClass;
use vbf::entity::entity::Entity;
use vbf::ordered_map::OrderedMap;
use vbf::relationship::catalog::{RelationshipCatalog, RelationshipCatalogError};
use vbf::relationship::registry::{RelationshipRegistryError, RelationshipSchemaRegistry};
use vbf::relationship::relationship::{Relationship, RelationshipParticipant};
use vbf::relationship::schema::{
    ParticipantRoleSchema, RelationshipRule, RelationshipSchema, RelationshipSchemaDefinitionError,
    RelationshipSchemaRef, SlotRequirement,
};
use vbf::relationship::validation::{validate_relationship, RelationshipValidationIssueKind};
use vbf::schema::context::SchemaContext;
use vbf::schema::field::{FieldRequirement, FieldSchema, FieldType};
use vbf::schema::json::JsonValue;
use vbf::schema::persistence::PersistenceClass;
use vbf::types::display_name::DisplayName;
use vbf::types::key::Key;
use vbf::types::time::SimTime;
use vbf::types::uid::{EntityUid, RelationshipUid};

fn object(members: Vec<(&str, JsonValue)>) -> JsonValue {
    let mut map: OrderedMap<String, JsonValue> = OrderedMap::new();
    for (k, v) in members {
        map.insert(k.to_string(), v);
    }
    JsonValue::Object(map)
}

fn empty() -> JsonValue {
    object(vec![])
}

fn test_relationship() -> Relationship {
    Relationship::new(
        RelationshipUid::new(),
        Key::new("relationship.instance.test").unwrap(),
        RelationshipSchemaRef::new(Key::new("relationship.test").unwrap(), 1).unwrap(),
        vec![],
        empty(),
    )
}

#[test]
fn validity_is_start_inclusive_and_end_exclusive() {
    let relationship = test_relationship()
        .with_validity(Some(SimTime::from_millis(1_000)), Some(SimTime::from_millis(2_000)));
    assert!(!relationship.active_at(SimTime::from_millis(999)));
    assert!(relationship.active_at(SimTime::from_millis(1_000)));
    assert!(relationship.active_at(SimTime::from_millis(1_999)));
    assert!(!relationship.active_at(SimTime::from_millis(2_000)));
}

fn actor_role(name: &str) -> ParticipantRoleSchema {
    ParticipantRoleSchema::new(Key::new(name).unwrap(), 1, Some(1), vec![EntityClass::Actor], SlotRequirement::Forbidden)
}

#[test]
fn schema_schema_rejects_zero_version() {
    let result = RelationshipSchema::new(
        Key::new("relationship.test").unwrap(),
        0,
        Key::new("module.test").unwrap(),
        vec![actor_role("actor")],
        vec![],
        vec![],
    );
    assert!(matches!(result, Err(RelationshipSchemaDefinitionError::ZeroVersion)));
}

#[test]
fn schema_rejects_duplicate_roles() {
    let result = RelationshipSchema::new(
        Key::new("relationship.test").unwrap(),
        1,
        Key::new("module.test").unwrap(),
        vec![actor_role("actor"), actor_role("actor")],
        vec![],
        vec![],
    );
    assert!(matches!(result, Err(RelationshipSchemaDefinitionError::DuplicateRole(_))));
}

#[test]
fn schema_rejects_reversed_role_cardinality() {
    let role =
        ParticipantRoleSchema::new(Key::new("crew").unwrap(), 2, Some(1), vec![EntityClass::Actor], SlotRequirement::Optional);
    let result = RelationshipSchema::new(
        Key::new("relationship.test").unwrap(),
        1,
        Key::new("module.test").unwrap(),
        vec![role],
        vec![],
        vec![],
    );
    assert!(matches!(result, Err(RelationshipSchemaDefinitionError::InvalidRoleCardinality { .. })));
}

#[test]
fn relationship_properties_reuse_vbf_schema_validation() {
    let property = FieldSchema::new(
        Key::new("scope").unwrap(),
        FieldType::Key,
        FieldRequirement::Required,
        PersistenceClass::Mutable,
    );
    let schema = RelationshipSchema::new(
        Key::new("relationship.test").unwrap(),
        1,
        Key::new("module.test").unwrap(),
        vec![actor_role("actor")],
        vec![property],
        vec![],
    )
    .unwrap();
    assert!(schema
        .validate_properties(
            &object(vec![("scope", JsonValue::String("scope.command".into()))]),
            SchemaContext::RuntimeState
        )
        .is_valid());
    assert!(!schema
        .validate_properties(&object(vec![("scope", JsonValue::String("BAD KEY".into()))]), SchemaContext::RuntimeState)
        .is_valid());
}

fn versioned_schema(version: u32) -> RelationshipSchema {
    RelationshipSchema::new(
        Key::new("relationship.test").unwrap(),
        version,
        Key::new("module.test").unwrap(),
        vec![actor_role("actor")],
        vec![],
        vec![],
    )
    .unwrap()
}

#[test]
fn registry_allows_multiple_versions() {
    let mut registry = RelationshipSchemaRegistry::new();
    registry.register(versioned_schema(1)).unwrap();
    registry.register(versioned_schema(2)).unwrap();
    assert_eq!(registry.len(), 2);
    assert_eq!(registry.latest("relationship.test").unwrap().version, 2);
    assert_eq!(registry.versions("relationship.test"), vec![1, 2]);
}

#[test]
fn registry_rejects_duplicate_key_version_pair() {
    let mut registry = RelationshipSchemaRegistry::new();
    registry.register(versioned_schema(1)).unwrap();
    assert!(matches!(registry.register(versioned_schema(1)), Err(RelationshipRegistryError::DuplicateSchema { .. })));
}

fn catalog_relationship(key: &str) -> Relationship {
    Relationship::new(
        RelationshipUid::new(),
        Key::new(key).unwrap(),
        RelationshipSchemaRef::new(Key::new("relationship.test").unwrap(), 1).unwrap(),
        vec![],
        empty(),
    )
}

#[test]
fn catalog_rejects_duplicate_keys() {
    let mut catalog = RelationshipCatalog::new();
    catalog.register(catalog_relationship("relationship.instance.one")).unwrap();
    assert!(matches!(
        catalog.register(catalog_relationship("relationship.instance.one")),
        Err(RelationshipCatalogError::DuplicateKey(_))
    ));
}

fn asset(key: &str) -> Entity {
    Entity::new(EntityUid::new(), Key::new(key).unwrap(), DisplayName::new(key).unwrap(), EntityClass::Asset)
}

fn basic_schema() -> RelationshipSchema {
    RelationshipSchema::new(
        Key::new("relationship.operated_by").unwrap(),
        1,
        Key::new("module.core").unwrap(),
        vec![
            ParticipantRoleSchema::new(Key::new("asset").unwrap(), 1, Some(1), vec![EntityClass::Asset], SlotRequirement::Forbidden),
            ParticipantRoleSchema::new(
                Key::new("operator").unwrap(),
                1,
                Some(1),
                vec![EntityClass::Actor],
                SlotRequirement::Optional,
            ),
        ],
        vec![],
        vec![],
    )
    .unwrap()
}

#[test]
fn participant_classes_are_checked_against_entity_catalog() {
    let asset_entity = asset("entity.test.asset");
    let wrong_operator = asset("entity.test.wrong_operator");

    let mut entities = EntityCatalog::new();
    entities.register(asset_entity.clone()).unwrap();
    entities.register(wrong_operator.clone()).unwrap();

    let schema = basic_schema();
    let mut schemas = RelationshipSchemaRegistry::new();
    schemas.register(schema.clone()).unwrap();

    let relationship = Relationship::new(
        RelationshipUid::new(),
        Key::new("relationship.instance.test").unwrap(),
        schema.schema_ref(),
        vec![
            RelationshipParticipant::new(asset_entity.uid, Key::new("asset").unwrap()),
            RelationshipParticipant::new(wrong_operator.uid, Key::new("operator").unwrap()),
        ],
        empty(),
    );

    let report = validate_relationship(&relationship, &schemas, &entities, SchemaContext::InitialState);
    assert!(report
        .issues
        .iter()
        .any(|issue| matches!(&issue.kind, RelationshipValidationIssueKind::ParticipantClassMismatch { .. })));
}

#[test]
fn unknown_relationship_schema_is_reported() {
    let entities = EntityCatalog::new();
    let schemas = RelationshipSchemaRegistry::new();
    let relationship = Relationship::new(
        RelationshipUid::new(),
        Key::new("relationship.instance.test").unwrap(),
        RelationshipSchemaRef::new(Key::new("relationship.unknown").unwrap(), 1).unwrap(),
        vec![],
        empty(),
    );
    let report = validate_relationship(&relationship, &schemas, &entities, SchemaContext::InitialState);
    assert!(matches!(&report.issues[0].kind, RelationshipValidationIssueKind::UnknownSchema(_)));
}

fn entity(key: &str, name: &str, class: EntityClass) -> Entity {
    Entity::new(EntityUid::new(), Key::new(key).unwrap(), DisplayName::new(name).unwrap(), class)
}

fn m8_entities() -> (EntityCatalog, EntityUid, Vec<(EntityUid, &'static str)>) {
    let m8 = entity("entity.us.42crs.baker.m8_b12", "Baker Troop M8 B-12", EntityClass::Asset);
    let m8_uid = m8.uid;
    let crew = [
        (
            entity("entity.us.42crs.baker.m8_b12.commander", "B-12 Car Commander / Loader", EntityClass::Actor),
            "station.commander_loader",
        ),
        (
            entity("entity.us.42crs.baker.m8_b12.gunner", "B-12 Gunner / Radio Operator", EntityClass::Actor),
            "station.gunner_radio",
        ),
        (entity("entity.us.42crs.baker.m8_b12.driver", "B-12 Driver", EntityClass::Actor), "station.driver"),
        (
            entity(
                "entity.us.42crs.baker.m8_b12.assistant_driver",
                "B-12 Radio Operator / Assistant Driver",
                EntityClass::Actor,
            ),
            "station.assistant_driver_radio",
        ),
    ];
    let mut entities = EntityCatalog::new();
    entities.register(m8).unwrap();
    let mut assignments = Vec::new();
    for (actor, slot) in crew {
        assignments.push((actor.uid, slot));
        entities.register(actor).unwrap();
    }
    (entities, m8_uid, assignments)
}

fn crewed_by_schema() -> RelationshipSchema {
    RelationshipSchema::new(
        Key::new("relationship.crewed_by").unwrap(),
        1,
        Key::new("module.core").unwrap(),
        vec![
            ParticipantRoleSchema::new(Key::new("asset").unwrap(), 1, Some(1), vec![EntityClass::Asset], SlotRequirement::Forbidden),
            ParticipantRoleSchema::new(Key::new("crew").unwrap(), 1, Some(1), vec![EntityClass::Actor], SlotRequirement::Required)
                .with_allowed_slots(vec![
                    Key::new("station.commander_loader").unwrap(),
                    Key::new("station.gunner_radio").unwrap(),
                    Key::new("station.driver").unwrap(),
                    Key::new("station.assistant_driver_radio").unwrap(),
                ]),
        ],
        vec![],
        vec![
            RelationshipRule::RoleExclusive { role: Key::new("crew").unwrap() },
            RelationshipRule::SlotCapacity {
                host_role: Key::new("asset").unwrap(),
                occupant_role: Key::new("crew").unwrap(),
                capacity: 1,
            },
        ],
    )
    .unwrap()
}

fn assignment(index: usize, asset: EntityUid, crew: EntityUid, slot: &str) -> Relationship {
    Relationship::new(
        RelationshipUid::new(),
        Key::new(&format!("relationship.us.42crs.b12.crew_{index}")).unwrap(),
        crewed_by_schema().schema_ref(),
        vec![
            RelationshipParticipant::new(asset, Key::new("asset").unwrap()),
            RelationshipParticipant::new(crew, Key::new("crew").unwrap()).in_slot(Key::new(slot).unwrap()),
        ],
        empty(),
    )
}

fn schema_registry() -> RelationshipSchemaRegistry {
    let mut schemas = RelationshipSchemaRegistry::new();
    schemas.register(crewed_by_schema()).unwrap();
    schemas
}

#[test]
fn m8_b12_accepts_four_distinct_crew_station_assignments() {
    let (entities, m8, crew) = m8_entities();
    let schemas = schema_registry();
    let mut relationships = RelationshipCatalog::new();
    for (index, (actor, slot)) in crew.into_iter().enumerate() {
        relationships.register(assignment(index, m8, actor, slot)).unwrap();
    }
    let report =
        relationships.validate_active_at(&schemas, &entities, SimTime::zero(), SchemaContext::InitialState);
    assert!(report.is_valid(), "{:#?}", report.issues);
}

#[test]
fn m8_station_capacity_one_rejects_double_occupancy() {
    let (entities, m8, crew) = m8_entities();
    let schemas = schema_registry();
    let mut relationships = RelationshipCatalog::new();
    relationships.register(assignment(0, m8, crew[0].0, "station.driver")).unwrap();
    relationships.register(assignment(1, m8, crew[1].0, "station.driver")).unwrap();
    let report =
        relationships.validate_active_at(&schemas, &entities, SimTime::zero(), SchemaContext::InitialState);
    assert!(report
        .issues
        .iter()
        .any(|issue| matches!(&issue.kind, RelationshipValidationIssueKind::SlotCapacityExceeded { .. })));
}

#[test]
fn m8_crew_actor_cannot_hold_two_active_crewed_by_assignments() {
    let (mut entities, m8, crew) = m8_entities();
    let second_m8 = entity("entity.us.42crs.baker.m8_b13", "Baker Troop M8 B-13", EntityClass::Asset);
    let second_m8_uid = second_m8.uid;
    entities.register(second_m8).unwrap();
    let schemas = schema_registry();
    let mut relationships = RelationshipCatalog::new();
    relationships.register(assignment(0, m8, crew[2].0, "station.driver")).unwrap();
    relationships.register(assignment(1, second_m8_uid, crew[2].0, "station.driver")).unwrap();
    let report =
        relationships.validate_active_at(&schemas, &entities, SimTime::zero(), SchemaContext::InitialState);
    assert!(report
        .issues
        .iter()
        .any(|issue| matches!(&issue.kind, RelationshipValidationIssueKind::RoleExclusiveConflict { .. })));
}

#[test]
fn m8_crew_assignment_rejects_unknown_station() {
    let (entities, m8, crew) = m8_entities();
    let schemas = schema_registry();
    let mut relationships = RelationshipCatalog::new();
    relationships.register(assignment(0, m8, crew[0].0, "station.nonexistent")).unwrap();
    let report =
        relationships.validate_active_at(&schemas, &entities, SimTime::zero(), SchemaContext::InitialState);
    assert!(report
        .issues
        .iter()
        .any(|issue| matches!(&issue.kind, RelationshipValidationIssueKind::SlotNotAllowed { .. })));
}

#[test]
fn station_handoff_at_same_sim_time_does_not_overlap() {
    let (entities, m8, crew) = m8_entities();
    let schemas = schema_registry();
    let handoff = SimTime::from_millis(60_000);
    let mut relationships = RelationshipCatalog::new();
    relationships
        .register(assignment(0, m8, crew[2].0, "station.driver").with_validity(None, Some(handoff)))
        .unwrap();
    relationships
        .register(assignment(1, m8, crew[3].0, "station.driver").with_validity(Some(handoff), None))
        .unwrap();
    let report = relationships.validate_active_at(&schemas, &entities, handoff, SchemaContext::RuntimeState);
    assert!(report.is_valid(), "{:#?}", report.issues);
}

// ----------------------------------------------------------------------
// Further cases
// ----------------------------------------------------------------------

#[test]
fn double_occupancy_names_host_slot_and_both_relationships() {
    let (entities, m8, crew) = m8_entities();
    let schemas = schema_registry();
    let mut relationships = RelationshipCatalog::new();
    let first = assignment(0, m8, crew[0].0, "station.driver");
    let second = assignment(1, m8, crew[1].0, "station.driver");
    let mut expected = vec![first.uid, second.uid];
    expected.sort();
    relationships.register(first).unwrap();
    relationships.register(second).unwrap();
    let report =
        relationships.validate_active_at(&schemas, &entities, SimTime::zero(), SchemaContext::InitialState);
    assert_eq!(report.issues.len(), 1);
    assert_eq!(report.issues[0].relationship, None);
    match &report.issues[0].kind {
        RelationshipValidationIssueKind::SlotCapacityExceeded { host, slot, capacity, actual, relationships, .. } => {
            assert_eq!(*host, m8);
            assert_eq!(slot.as_str(), "station.driver");
            assert_eq!(*capacity, 1);
            assert_eq!(*actual, 2);
            assert_eq!(relationships, &expected);
        }
        other => panic!("unexpected issue {other:?}"),
    }
}

#[test]
fn inactive_relationships_are_not_validated() {
    let (entities, m8, crew) = m8_entities();
    let schemas = schema_registry();
    let mut relationships = RelationshipCatalog::new();
    relationships
        .register(assignment(0, m8, crew[0].0, "station.nonexistent").with_validity(Some(SimTime::from_millis(10)), None))
        .unwrap();
    assert!(relationships
        .validate_active_at(&schemas, &entities, SimTime::zero(), SchemaContext::InitialState)
        .is_valid());
    assert_eq!(relationships.active_at(SimTime::zero()).len(), 0);
    assert_eq!(relationships.active_at(SimTime::from_millis(10)).len(), 1);
}

#[test]
fn cardinality_and_missing_entities_are_reported() {
    let (entities, m8, _crew) = m8_entities();
    let schemas = schema_registry();
    let ghost = EntityUid::new();
    let relationship = Relationship::new(
        RelationshipUid::new(),
        Key::new("relationship.test.partial").unwrap(),
        crewed_by_schema().schema_ref(),
        vec![
            RelationshipParticipant::new(m8, Key::new("asset").unwrap()),
            RelationshipParticipant::new(ghost, Key::new("crew").unwrap()).in_slot(Key::new("station.driver").unwrap()),
            RelationshipParticipant::new(m8, Key::new("pilot").unwrap()),
        ],
        empty(),
    );
    let report = validate_relationship(&relationship, &schemas, &entities, SchemaContext::RuntimeState);
    let kinds: Vec<&RelationshipValidationIssueKind> = report.issues.iter().map(|i| &i.kind).collect();
    assert!(matches!(kinds[0], RelationshipValidationIssueKind::MissingEntity(e) if *e == ghost));
    assert!(matches!(kinds[1], RelationshipValidationIssueKind::SameEntityInMultipleRoles(e) if *e == m8));
    assert!(matches!(kinds[2], RelationshipValidationIssueKind::UnknownRole(r) if r.as_str() == "pilot"));
    assert_eq!(kinds.len(), 3);
    assert!(report.issues.iter().all(|i| i.relationship == Some(relationship.uid)));
}

#[test]
fn reversed_time_range_and_missing_roles_are_reported() {
    let (entities, _m8, _crew) = m8_entities();
    let schemas = schema_registry();
    let relationship = Relationship::new(
        RelationshipUid::new(),
        Key::new("relationship.test.empty").unwrap(),
        crewed_by_schema().schema_ref(),
        vec![],
        empty(),
    )
    .with_validity(Some(SimTime::from_millis(5)), Some(SimTime::from_millis(5)));
    let report = validate_relationship(&relationship, &schemas, &entities, SchemaContext::RuntimeState);
    assert!(matches!(report.issues[0].kind, RelationshipValidationIssueKind::InvalidTimeRange { .. }));
    assert!(matches!(
        &report.issues[1].kind,
        RelationshipValidationIssueKind::MissingRequiredRole { minimum: 1, actual: 0, .. }
    ));
    assert_eq!(report.issues.len(), 3);
}

#[test]
fn schema_rules_must_name_declared_roles() {
    let result = RelationshipSchema::new(
        Key::new("relationship.test").unwrap(),
        1,
        Key::new("module.test").unwrap(),
        vec![actor_role("actor")],
        vec![],
        vec![RelationshipRule::RoleExclusive { role: Key::new("pilot").unwrap() }],
    );
    assert!(matches!(result, Err(RelationshipSchemaDefinitionError::UnknownRuleRole(r)) if r.as_str() == "pilot"));
    let result = RelationshipSchema::new(
        Key::new("relationship.test").unwrap(),
        1,
        Key::new("module.test").unwrap(),
        vec![actor_role("actor"), actor_role("crew")],
        vec![],
        vec![RelationshipRule::SlotCapacity {
            host_role: Key::new("actor").unwrap(),
            occupant_role: Key::new("crew").unwrap(),
            capacity: 1,
        }],
    );
    assert!(matches!(result, Err(RelationshipSchemaDefinitionError::SlotCapacityRequiresSlottedRole(_))));
    let result = RelationshipSchema::new(
        Key::new("relationship.test").unwrap(),
        1,
        Key::new("module.test").unwrap(),
        vec![],
        vec![],
        vec![],
    );
    assert!(matches!(result, Err(RelationshipSchemaDefinitionError::NoRoles)));
}

#[test]
fn participants_are_found_by_role_and_entity() {
    let a = EntityUid::new();
    let b = EntityUid::new();
    let relationship = Relationship::new(
        RelationshipUid::new(),
        Key::new("relationship.test.roles").unwrap(),
        RelationshipSchemaRef::new(Key::new("relationship.test").unwrap(), 1).unwrap(),
        vec![
            RelationshipParticipant::new(a, Key::new("asset").unwrap()),
            RelationshipParticipant::new(b, Key::new("crew").unwrap()),
        ],
        empty(),
    );
    assert!(relationship.involves(a));
    assert!(!relationship.involves(EntityUid::new()));
    assert_eq!(relationship.participants_in_role("crew").len(), 1);
    assert_eq!(relationship.participants_in_role("crew")[0].entity, b);
    let mut catalog = RelationshipCatalog::new();
    let uid = relationship.uid;
    catalog.register(relationship).unwrap();
    assert_eq!(catalog.involving(a).len(), 1);
    assert_eq!(catalog.involving(EntityUid::new()).len(), 0);
    assert_eq!(catalog.iter().len(), 1);
    assert!(catalog.get(uid).is_some());
    assert!(catalog.get_by_key("relationship.test.roles").is_some());
}

#[test]
fn relationship_schema_errors_explain_themselves() {
    let e = RelationshipSchemaDefinitionError::InvalidRoleCardinality {
        role: Key::new("crew").unwrap(),
        minimum: 2,
        maximum: Some(1),
    };
    assert_eq!(e.message(), "invalid cardinality for role crew: minimum 2, maximum Some(1)");
    let e = RelationshipSchemaDefinitionError::DuplicateAllowedClass {
        role: Key::new("crew").unwrap(),
        class: EntityClass::ObjectiveTask,
    };
    assert_eq!(e.message(), "role crew declares duplicate allowed class ObjectiveTask");
    assert_eq!(
        RelationshipSchemaDefinitionError::DuplicateRole(Key::new("crew").unwrap()).message(),
        "duplicate relationship role: crew"
    );
    assert_eq!(
        RelationshipRegistryError::DuplicateSchema { key: Key::new("relationship.test").unwrap(), version: 3 }
            .message(),
        "relationship schema already registered: relationship.test v3"
    );
}

fn two_slot_assignment(index: usize, asset: EntityUid, crew: EntityUid) -> Relationship {
    Relationship::new(
        RelationshipUid::new(),
        Key::new(&format!("relationship.us.42crs.b12.double_{index}")).unwrap(),
        crewed_by_schema().schema_ref(),
        vec![
            RelationshipParticipant::new(asset, Key::new("asset").unwrap()),
            RelationshipParticipant::new(crew, Key::new("crew").unwrap()).in_slot(Key::new("station.driver").unwrap()),
            RelationshipParticipant::new(crew, Key::new("crew").unwrap())
                .in_slot(Key::new("station.gunner_radio").unwrap()),
        ],
        empty(),
    )
}

#[test]
fn exclusivity_counts_each_relationship_once() {
    let (mut entities, m8, crew) = m8_entities();
    let second_m8 = entity("entity.us.42crs.baker.m8_b13", "Baker Troop M8 B-13", EntityClass::Asset);
    let second_m8_uid = second_m8.uid;
    entities.register(second_m8).unwrap();
    let schemas = schema_registry();

    // One relationship naming the same crew member twice is no conflict.
    let mut alone = RelationshipCatalog::new();
    alone.register(two_slot_assignment(0, m8, crew[0].0)).unwrap();
    let report = alone.validate_active_at(&schemas, &entities, SimTime::zero(), SchemaContext::InitialState);
    assert!(!report.issues.iter().any(|issue| matches!(
        &issue.kind,
        RelationshipValidationIssueKind::RoleExclusiveConflict { .. }
            | RelationshipValidationIssueKind::SlotCapacityExceeded { .. }
    )));

    // With a second relationship, the conflict lists each relationship once.
    let first = two_slot_assignment(0, m8, crew[0].0);
    let second = assignment(1, second_m8_uid, crew[0].0, "station.driver");
    let mut expected = vec![first.uid, second.uid];
    expected.sort();
    let mut both = RelationshipCatalog::new();
    both.register(first).unwrap();
    both.register(second).unwrap();
    let report = both.validate_active_at(&schemas, &entities, SimTime::zero(), SchemaContext::InitialState);
    let conflicts: Vec<&Vec<RelationshipUid>> = report
        .issues
        .iter()
        .filter_map(|issue| match &issue.kind {
            RelationshipValidationIssueKind::RoleExclusiveConflict { relationships, .. } => Some(relationships),
            _ => None,
        })
        .collect();
    assert_eq!(conflicts, vec![&expected]);
}
