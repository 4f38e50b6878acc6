use vbf::entity::catalog::{
    DefinitionCatalog, DefinitionCatalogError, DefinitionResolutionError, EntityCatalog, EntityCatalogError,
};
use vbf::entity::class::EntityClass;
use vbf::entity::component::{ComponentData, ComponentDataError};
use vbf::entity::definition::Definition;
use vbf::entity::entity::Entity;
use vbf::entity::validation::EntityValidationIssue;
use vbf::ordered_map::OrderedMap;
use vbf::schema::component::{ComponentSchema, ComponentSchemaRef};
use vbf::schema::constraint::FieldConstraint;
use vbf::schema::context::SchemaContext;
use vbf::schema::decimal::Decimal;
use vbf::schema::field::{FieldRequirement, FieldSchema, FieldType};
use vbf::schema::json::{JsonNumber, JsonValue};
use vbf::schema::persistence::PersistenceClass;
use vbf::schema::registry::SchemaRegistry;
use vbf::types::display_name::DisplayName;
use vbf::types::key::Key;
use vbf::types::uid::{DefinitionUid, EntityUid};

fn object(members: Vec<(&str, JsonValue)>) -> JsonValue {
    let mut map: OrderedMap<String, JsonValue> = OrderedMap::new();
    for (k, v) in members {
        map.insert(k.to_string(), v);
    }
    JsonValue::Object(map)
}

fn text(s: &str) -> JsonValue {
    JsonValue::String(s.to_string())
}

fn decimal(x: f64) -> JsonValue {
    let d = Decimal::new(x.to_bits(), format!("{x}"), format!("{x:?}"), serde_json::Number::from_f64(x).map(|n| n.to_string()).unwrap_or_default());
    JsonValue::Number(JsonNumber::from_decimal(d).expect("finite decimal"))
}

fn definition(key: &str, class: EntityClass) -> Definition {
    Definition::new(DefinitionUid::new(), Key::new(key).unwrap(), DisplayName::new(key).unwrap(), class)
}

#[test]
fn definition_catalog_rejects_duplicate_keys() {
    let mut catalog = DefinitionCatalog::new();
    catalog.register(definition("definition.vehicle.base", EntityClass::Asset)).unwrap();
    assert!(matches!(
        catalog.register(definition("definition.vehicle.base", EntityClass::Asset)),
        Err(DefinitionCatalogError::DuplicateKey(_))
    ));
}

#[test]
fn definition_resolution_preserves_lineage() {
    let parent = definition("definition.vehicle.base", EntityClass::Asset);
    let parent_uid = parent.uid;
    let child_uid = DefinitionUid::new();
    let child = Definition::new(
        child_uid,
        Key::new("definition.vehicle.m8").unwrap(),
        DisplayName::new("M8 Light Armored Car").unwrap(),
        EntityClass::Asset,
    )
    .with_parent(parent_uid);

    let mut catalog = DefinitionCatalog::new();
    catalog.register(parent).unwrap();
    catalog.register(child).unwrap();

    let resolved = catalog.resolve(child_uid).unwrap();
    assert_eq!(resolved.lineage, vec![parent_uid, child_uid]);
    assert_eq!(resolved.class, EntityClass::Asset);
}

#[test]
fn definition_resolution_rejects_cross_class_inheritance() {
    let parent = definition("definition.actor.base", EntityClass::Actor);
    let parent_uid = parent.uid;
    let child = definition("definition.asset.bad", EntityClass::Asset).with_parent(parent_uid);
    let child_uid = child.uid;

    let mut catalog = DefinitionCatalog::new();
    catalog.register(parent).unwrap();
    catalog.register(child).unwrap();

    assert!(matches!(
        catalog.resolve(child_uid),
        Err(DefinitionResolutionError::ParentClassMismatch { .. })
    ));
}

#[test]
fn definition_resolution_detects_cycles() {
    let a_uid = DefinitionUid::new();
    let b_uid = DefinitionUid::new();
    let a = Definition::new(
        a_uid,
        Key::new("definition.test.a").unwrap(),
        DisplayName::new("A").unwrap(),
        EntityClass::Asset,
    )
    .with_parent(b_uid);
    let b = Definition::new(
        b_uid,
        Key::new("definition.test.b").unwrap(),
        DisplayName::new("B").unwrap(),
        EntityClass::Asset,
    )
    .with_parent(a_uid);

    let mut catalog = DefinitionCatalog::new();
    catalog.register(a).unwrap();
    catalog.register(b).unwrap();

    assert!(matches!(catalog.resolve(a_uid), Err(DefinitionResolutionError::InheritanceCycle(_))));
}

fn state_registry() -> SchemaRegistry {
    let schema = ComponentSchema::new(
        Key::new("component.test_state").unwrap(),
        1,
        Key::new("module.test").unwrap(),
        vec![FieldSchema::new(
            Key::new("state").unwrap(),
            FieldType::Key,
            FieldRequirement::Required,
            PersistenceClass::Mutable,
        )],
    )
    .unwrap();
    let mut registry = SchemaRegistry::new();
    registry.register(schema).unwrap();
    registry
}

#[test]
fn component_data_requires_registered_exact_schema_version() {
    let component = ComponentData::new(
        ComponentSchemaRef::new(Key::new("component.test_state").unwrap(), 2).unwrap(),
        object(vec![("state", text("state.ready"))]),
    );
    assert!(matches!(
        component.validate(&state_registry(), SchemaContext::RuntimeState),
        Err(ComponentDataError::UnknownSchema(_))
    ));
}

#[test]
fn component_data_uses_schema_context_validation() {
    let component = ComponentData::new(
        ComponentSchemaRef::new(Key::new("component.test_state").unwrap(), 1).unwrap(),
        object(vec![("state", text("state.ready"))]),
    );
    assert!(component.validate(&state_registry(), SchemaContext::RuntimeState).is_ok());
    assert!(component.validate(&state_registry(), SchemaContext::Definition).is_err());
}

fn field(key: &str, field_type: FieldType, persistence: PersistenceClass) -> FieldSchema {
    FieldSchema::new(Key::new(key).unwrap(), field_type, FieldRequirement::Required, persistence)
}

fn m8_schemas() -> SchemaRegistry {
    let vehicle_profile = ComponentSchema::new(
        Key::new("component.vehicle_profile").unwrap(),
        1,
        Key::new("module.vehicle").unwrap(),
        vec![
            field("vehicle_class", FieldType::Key, PersistenceClass::Definition),
            field("drive", FieldType::Key, PersistenceClass::Definition),
            field("crew_capacity", FieldType::UnsignedInteger, PersistenceClass::Definition),
            field("armored", FieldType::Bool, PersistenceClass::Definition),
            field("open_topped_turret", FieldType::Bool, PersistenceClass::Definition),
            field("fuel_capacity_us_gal", FieldType::Decimal, PersistenceClass::Definition),
        ],
    )
    .unwrap();

    let mobility_state = field("mobility_state", FieldType::Key, PersistenceClass::Mutable).with_constraint(
        FieldConstraint::AllowedStrings {
            values: vec![
                "mobility.ready".into(),
                "mobility.degraded".into(),
                "mobility.restricted".into(),
                "mobility.bogged".into(),
                "mobility.immobilized".into(),
                "mobility.disabled".into(),
                "mobility.destroyed".into(),
                "mobility.overturned".into(),
            ],
        },
    );

    let vehicle_state = ComponentSchema::new(
        Key::new("component.vehicle_state").unwrap(),
        1,
        Key::new("module.vehicle").unwrap(),
        vec![mobility_state],
    )
    .unwrap();

    let mut registry = SchemaRegistry::new();
    registry.register(vehicle_profile).unwrap();
    registry.register(vehicle_state).unwrap();
    registry
}

#[test]
fn m8_definition_and_b12_instance_validate_against_real_game_shape() {
    let schemas = m8_schemas();

    let m8_definition_uid = DefinitionUid::new();
    let mut m8 = Definition::new(
        m8_definition_uid,
        Key::new("definition.us.m8_light_armored_car").unwrap(),
        DisplayName::new("M8 Light Armored Car").unwrap(),
        EntityClass::Asset,
    );
    m8.set_component(ComponentData::new(
        ComponentSchemaRef::new(Key::new("component.vehicle_profile").unwrap(), 1).unwrap(),
        object(vec![
            ("vehicle_class", text("vehicle.armored_reconnaissance")),
            ("drive", text("drive.6x6")),
            ("crew_capacity", JsonValue::Number(JsonNumber::from_u64(4))),
            ("armored", JsonValue::Bool(true)),
            ("open_topped_turret", JsonValue::Bool(true)),
            ("fuel_capacity_us_gal", decimal(54.0)),
        ]),
    ));
    assert!(m8.validate_components(&schemas).is_valid());

    let mut definitions = DefinitionCatalog::new();
    definitions.register(m8).unwrap();

    let mut b12 = Entity::new(
        EntityUid::new(),
        Key::new("entity.us.42crs.baker.m8_b12").unwrap(),
        DisplayName::new("Baker Troop M8 B-12").unwrap(),
        EntityClass::Asset,
    )
    .with_template(m8_definition_uid);
    b12.set_component(ComponentData::new(
        ComponentSchemaRef::new(Key::new("component.vehicle_state").unwrap(), 1).unwrap(),
        object(vec![("mobility_state", text("mobility.ready"))]),
    ));

    assert!(b12.validate(&schemas, &definitions, SchemaContext::InitialState).is_valid());
}

#[test]
fn m8_historical_four_person_crew_can_exist_as_distinct_actor_entities() {
    let roles = [
        ("commander", "Car Commander / Loader"),
        ("gunner", "Gunner / Radio Operator"),
        ("driver", "Driver"),
        ("assistant_driver", "Radio Operator / Assistant Driver"),
    ];

    let mut entities = EntityCatalog::new();
    for (key_suffix, display_role) in roles {
        let actor = Entity::new(
            EntityUid::new(),
            Key::new(&format!("entity.us.42crs.baker.m8_b12.{key_suffix}")).unwrap(),
            DisplayName::new(&format!("B-12 {display_role}")).unwrap(),
            EntityClass::Actor,
        );
        entities.register(actor).unwrap();
    }

    assert_eq!(entities.len(), 4);
    assert!(entities.get_by_key("entity.us.42crs.baker.m8_b12.commander").is_some());
}

// ----------------------------------------------------------------------
// Further cases
// ----------------------------------------------------------------------

#[test]
fn definition_catalog_rejects_duplicate_uids_and_finds_by_key() {
    let first = definition("definition.vehicle.base", EntityClass::Asset);
    let uid = first.uid;
    let again = Definition::new(
        uid,
        Key::new("definition.vehicle.other").unwrap(),
        DisplayName::new("Other").unwrap(),
        EntityClass::Asset,
    );
    let mut catalog = DefinitionCatalog::new();
    assert!(catalog.is_empty());
    catalog.register(first).unwrap();
    assert!(matches!(catalog.register(again), Err(DefinitionCatalogError::DuplicateUid(u)) if u == uid));
    assert_eq!(catalog.len(), 1);
    assert_eq!(catalog.get_by_key("definition.vehicle.base").unwrap().uid, uid);
    assert!(catalog.get_by_key("definition.vehicle.other").is_none());
    assert!(catalog.get(uid).is_some());
}

#[test]
fn resolution_reports_missing_definition_and_parent() {
    let catalog = DefinitionCatalog::new();
    let ghost = DefinitionUid::new();
    assert_eq!(catalog.resolve(ghost).unwrap_err(), DefinitionResolutionError::MissingDefinition(ghost));

    let parent_uid = DefinitionUid::new();
    let child = definition("definition.orphan", EntityClass::Asset).with_parent(parent_uid);
    let child_uid = child.uid;
    let mut catalog = DefinitionCatalog::new();
    catalog.register(child).unwrap();
    assert_eq!(
        catalog.resolve(child_uid).unwrap_err(),
        DefinitionResolutionError::MissingParent { definition: child_uid, parent: parent_uid }
    );
}

#[test]
fn child_components_replace_parent_components_by_key() {
    let state_ref = || ComponentSchemaRef::new(Key::new("component.test_state").unwrap(), 1).unwrap();
    let mut parent = definition("definition.base", EntityClass::Asset);
    parent.set_component(ComponentData::new(state_ref(), object(vec![("state", text("state.parent"))])));
    let parent_uid = parent.uid;
    let mut child = definition("definition.child", EntityClass::Asset).with_parent(parent_uid);
    child.set_component(ComponentData::new(state_ref(), object(vec![("state", text("state.child"))])));
    let child_uid = child.uid;
    let mut catalog = DefinitionCatalog::new();
    catalog.register(parent).unwrap();
    catalog.register(child).unwrap();
    let resolved = catalog.resolve(child_uid).unwrap();
    assert_eq!(resolved.components.len(), 1);
    let component = resolved.components.get(&Key::new("component.test_state").unwrap()).unwrap();
    match &component.payload {
        JsonValue::Object(o) => {
            assert!(matches!(o.get(&"state".to_string()), Some(JsonValue::String(s)) if s == "state.child"))
        }
        _ => panic!("payload is an object"),
    }
}

#[test]
fn entities_validate_only_in_state_contexts() {
    let entity = Entity::new(
        EntityUid::new(),
        Key::new("entity.test").unwrap(),
        DisplayName::new("Test").unwrap(),
        EntityClass::Actor,
    );
    let report = entity.validate(&state_registry(), &DefinitionCatalog::new(), SchemaContext::Definition);
    assert_eq!(report.issues.len(), 1);
    assert!(matches!(
        report.issues[0],
        EntityValidationIssue::InvalidEntityContext(SchemaContext::Definition)
    ));
}

#[test]
fn entity_template_class_must_match() {
    let template = definition("definition.actor", EntityClass::Actor);
    let template_uid = template.uid;
    let mut definitions = DefinitionCatalog::new();
    definitions.register(template).unwrap();
    let entity = Entity::new(
        EntityUid::new(),
        Key::new("entity.test").unwrap(),
        DisplayName::new("Test").unwrap(),
        EntityClass::Asset,
    )
    .with_template(template_uid);
    let report = entity.validate(&state_registry(), &definitions, SchemaContext::RuntimeState);
    assert!(matches!(
        report.issues[0],
        EntityValidationIssue::TemplateClassMismatch {
            entity_class: EntityClass::Asset,
            template_class: EntityClass::Actor
        }
    ));
}

#[test]
fn component_filed_under_another_key_is_reported() {
    let mut entity = Entity::new(
        EntityUid::new(),
        Key::new("entity.test").unwrap(),
        DisplayName::new("Test").unwrap(),
        EntityClass::Asset,
    );
    entity.components.insert(
        Key::new("component.elsewhere").unwrap(),
        ComponentData::new(
            ComponentSchemaRef::new(Key::new("component.test_state").unwrap(), 1).unwrap(),
            object(vec![("state", text("state.ready"))]),
        ),
    );
    let report = entity.validate(&state_registry(), &DefinitionCatalog::new(), SchemaContext::RuntimeState);
    assert!(matches!(report.issues[0], EntityValidationIssue::ComponentKeyMismatch { .. }));
    assert!(entity.component("component.elsewhere").is_some());
    assert!(entity.component("component.test_state").is_none());
}

#[test]
fn entity_catalog_rejects_duplicates() {
    let entity = Entity::new(
        EntityUid::new(),
        Key::new("entity.test").unwrap(),
        DisplayName::new("Test").unwrap(),
        EntityClass::Asset,
    );
    let same_key = Entity::new(
        EntityUid::new(),
        Key::new("entity.test").unwrap(),
        DisplayName::new("Other").unwrap(),
        EntityClass::Asset,
    );
    let uid = entity.uid;
    let mut catalog = EntityCatalog::new();
    catalog.register(entity.clone()).unwrap();
    assert!(matches!(catalog.register(entity), Err(EntityCatalogError::DuplicateUid(u)) if u == uid));
    assert!(matches!(catalog.register(same_key), Err(EntityCatalogError::DuplicateKey(_))));
    assert_eq!(catalog.len(), 1);
    assert_eq!(catalog.get(uid).unwrap().key.as_str(), "entity.test");
}

#[test]
fn entity_errors_explain_themselves() {
    let a = DefinitionUid::from_uuid(0x0123_4567_89ab_cdef_0123_4567_89ab_cdef).unwrap();
    let b = DefinitionUid::from_uuid(0xffff_0000_0000_0000_0000_0000_0000_0001).unwrap();
    let e = DefinitionResolutionError::ParentClassMismatch {
        definition: a,
        definition_class: EntityClass::Asset,
        parent: b,
        parent_class: EntityClass::Actor,
    };
    assert_eq!(
        e.message(),
        "definition 01234567-89ab-cdef-0123-456789abcdef (Asset) cannot extend ffff0000-0000-0000-0000-000000000001 (Actor)"
    );
    assert_eq!(
        DefinitionCatalogError::DuplicateKey(Key::new("definition.x").unwrap()).message(),
        "definition key already registered: definition.x"
    );
    let component = ComponentData::new(
        ComponentSchemaRef::new(Key::new("component.test_state").unwrap(), 2).unwrap(),
        object(vec![]),
    );
    let err = component.validate(&state_registry(), SchemaContext::RuntimeState).unwrap_err();
    assert_eq!(err.message(), "component schema is not registered: component.test_state v2");
    let component = ComponentData::new(
        ComponentSchemaRef::new(Key::new("component.test_state").unwrap(), 1).unwrap(),
        object(vec![]),
    );
    let err = component.validate(&state_registry(), SchemaContext::RuntimeState).unwrap_err();
    assert_eq!(err.message(), "component payload does not match component.test_state v1 (1 issue(s))");
}
