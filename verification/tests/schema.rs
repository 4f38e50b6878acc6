use vbf::ordered_map::OrderedMap;
use vbf::schema::component::{ComponentSchema, SchemaDefinitionError};
use vbf::schema::constraint::FieldConstraint;
use vbf::schema::context::SchemaContext;
use vbf::schema::decimal::Decimal;
use vbf::schema::field::{FieldRequirement, FieldSchema, FieldType};
use vbf::schema::json::{JsonNumber, JsonValue, JsonValueKind};
use vbf::schema::persistence::PersistenceClass;
use vbf::schema::registry::{RegistryError, SchemaRegistry};
use vbf::schema::validation::ComponentValidationIssueKind;
use vbf::types::key::Key;

fn object(members: Vec<(&str, JsonValue)>) -> JsonValue {
    let mut map: OrderedMap<String, JsonValue> = OrderedMap::new();
    for (k, v) in members {
        map.insert(k.to_string(), v);
    }
    JsonValue::Object(map)
}

fn text(s: &str) -> JsonValue {
    JsonValue::String(s.to_string())
}

fn unsigned(u: u64) -> JsonValue {
    JsonValue::Number(JsonNumber::from_u64(u))
}

fn decimal(x: f64) -> JsonValue {
    let d = Decimal::new(x.to_bits(), format!("{x}"), format!("{x:?}"), serde_json::Number::from_f64(x).map(|n| n.to_string()).unwrap_or_default());
    JsonValue::Number(JsonNumber::from_decimal(d).expect("finite decimal"))
}

fn field(key: &str, field_type: FieldType, persistence: PersistenceClass) -> FieldSchema {
    FieldSchema::new(Key::new(key).unwrap(), field_type, FieldRequirement::Required, persistence)
}

fn basic_schema(fields: Vec<FieldSchema>) -> ComponentSchema {
    ComponentSchema::new(
        Key::new("component.test").unwrap(),
        1,
        Key::new("module.layer0").unwrap(),
        fields,
    )
    .unwrap()
}

#[test]
fn mutable_fields_are_allowed_in_initial_and_runtime_state() {
    assert!(PersistenceClass::Mutable.allows(SchemaContext::InitialState));
    assert!(PersistenceClass::Mutable.allows(SchemaContext::RuntimeState));
    assert!(!PersistenceClass::Mutable.allows(SchemaContext::Definition));
}

#[test]
fn derived_and_ephemeral_fields_are_not_canonical() {
    assert!(!PersistenceClass::Derived.is_canonical());
    assert!(!PersistenceClass::Ephemeral.is_canonical());
    assert!(PersistenceClass::Mutable.is_canonical());
}

#[test]
fn component_schema_rejects_zero_version() {
    let result = ComponentSchema::new(
        Key::new("component.test").unwrap(),
        0,
        Key::new("module.layer0").unwrap(),
        vec![],
    );
    assert!(matches!(result, Err(SchemaDefinitionError::ZeroVersion)));
}

#[test]
fn schema_rejects_duplicate_fields() {
    let first = field("state", FieldType::String, PersistenceClass::Mutable);
    let second = field("state", FieldType::String, PersistenceClass::Mutable);
    let result = ComponentSchema::new(
        Key::new("component.test").unwrap(),
        1,
        Key::new("module.layer0").unwrap(),
        vec![first, second],
    );
    assert!(matches!(result, Err(SchemaDefinitionError::DuplicateField(_))));
}

#[test]
fn schema_rejects_incompatible_constraint() {
    let constrained = field("state", FieldType::Bool, PersistenceClass::Mutable)
        .with_constraint(FieldConstraint::StringLength { min: Some(1), max: Some(10) });
    assert!(matches!(
        ComponentSchema::new(
            Key::new("component.test").unwrap(),
            1,
            Key::new("module.layer0").unwrap(),
            vec![constrained],
        ),
        Err(SchemaDefinitionError::IncompatibleConstraint { .. })
    ));
}

#[test]
fn schema_rejects_reversed_constraint_bounds() {
    let constrained = field("count", FieldType::UnsignedInteger, PersistenceClass::Mutable)
        .with_constraint(FieldConstraint::UnsignedRange { min: Some(10), max: Some(5) });
    assert!(matches!(
        ComponentSchema::new(
            Key::new("component.test").unwrap(),
            1,
            Key::new("module.layer0").unwrap(),
            vec![constrained],
        ),
        Err(SchemaDefinitionError::InvalidConstraintBounds { .. })
    ));
}

#[test]
fn required_fields_are_context_sensitive() {
    let schema = basic_schema(vec![
        field("length_mm", FieldType::UnsignedInteger, PersistenceClass::Definition),
        field("state", FieldType::String, PersistenceClass::Mutable),
    ]);
    let runtime =
        schema.validate_payload(&object(vec![("state", text("operational"))]), SchemaContext::RuntimeState);
    assert!(runtime.is_valid());
    let definition =
        schema.validate_payload(&object(vec![("length_mm", unsigned(5000))]), SchemaContext::Definition);
    assert!(definition.is_valid());
}

#[test]
fn persistence_mismatch_is_reported() {
    let schema =
        basic_schema(vec![field("length_mm", FieldType::UnsignedInteger, PersistenceClass::Definition)]);
    let report =
        schema.validate_payload(&object(vec![("length_mm", unsigned(5000))]), SchemaContext::RuntimeState);
    assert_eq!(report.issues.len(), 1);
    assert!(matches!(&report.issues[0].kind, ComponentValidationIssueKind::PersistenceMismatch { .. }));
}

#[test]
fn unknown_fields_are_rejected_by_default() {
    let schema = basic_schema(vec![]);
    let report =
        schema.validate_payload(&object(vec![("mystery", JsonValue::Bool(true))]), SchemaContext::RuntimeState);
    assert!(matches!(&report.issues[0].kind, ComponentValidationIssueKind::UnknownField));
}

#[test]
fn unknown_fields_can_be_explicitly_allowed() {
    let schema = basic_schema(vec![]).allow_unknown_fields(true);
    let report =
        schema.validate_payload(&object(vec![("mystery", JsonValue::Bool(true))]), SchemaContext::RuntimeState);
    assert!(report.is_valid());
}

#[test]
fn typed_key_values_use_domain_validation() {
    let schema = basic_schema(vec![field("frame", FieldType::Key, PersistenceClass::Mutable)]);
    assert!(schema
        .validate_payload(&object(vec![("frame", text("frame.vaux_local"))]), SchemaContext::RuntimeState)
        .is_valid());
    assert!(!schema
        .validate_payload(&object(vec![("frame", text("BAD KEY"))]), SchemaContext::RuntimeState)
        .is_valid());
}

#[test]
fn array_item_types_are_checked() {
    let schema = basic_schema(vec![field(
        "crew",
        FieldType::Array { items: Box::new(FieldType::EntityUid) },
        PersistenceClass::Mutable,
    )]);
    let report = schema.validate_payload(
        &object(vec![("crew", JsonValue::Array(vec![text("not-a-uuid")]))]),
        SchemaContext::RuntimeState,
    );
    assert!(matches!(&report.issues[0].kind, ComponentValidationIssueKind::InvalidArrayItem { .. }));
}

#[test]
fn string_constraints_are_enforced() {
    let constrained = field("state", FieldType::String, PersistenceClass::Mutable).with_constraint(
        FieldConstraint::AllowedStrings { values: vec!["operational".into(), "disabled".into()] },
    );
    let schema = basic_schema(vec![constrained]);
    assert!(schema
        .validate_payload(&object(vec![("state", text("operational"))]), SchemaContext::RuntimeState)
        .is_valid());
    assert!(!schema
        .validate_payload(&object(vec![("state", text("flying"))]), SchemaContext::RuntimeState)
        .is_valid());
}

fn registry_schema(version: u32) -> ComponentSchema {
    ComponentSchema::new(
        Key::new("component.spatial").unwrap(),
        version,
        Key::new("module.layer0").unwrap(),
        vec![],
    )
    .unwrap()
}

#[test]
fn registry_allows_multiple_versions_of_same_component() {
    let mut registry = SchemaRegistry::new();
    registry.register(registry_schema(1)).unwrap();
    registry.register(registry_schema(2)).unwrap();
    assert_eq!(registry.len(), 2);
    assert_eq!(registry.component_count(), 1);
    assert_eq!(registry.latest("component.spatial").unwrap().version, 2);
    assert_eq!(registry.versions("component.spatial"), vec![1, 2]);
}

#[test]
fn registry_rejects_duplicate_key_and_version() {
    let mut registry = SchemaRegistry::new();
    registry.register(registry_schema(1)).unwrap();
    assert!(matches!(
        registry.register(registry_schema(1)),
        Err(RegistryError::DuplicateSchema { version: 1, .. })
    ));
}

#[test]
fn owner_query_returns_registered_schemas() {
    let mut registry = SchemaRegistry::new();
    registry.register(registry_schema(1)).unwrap();
    assert_eq!(registry.owned_by("module.layer0").len(), 1);
    assert_eq!(registry.owned_by("module.combat").len(), 0);
}

// ----------------------------------------------------------------------
// Further cases
// ----------------------------------------------------------------------

#[test]
fn registered_schema_is_found_by_key_and_version() {
    let mut registry = SchemaRegistry::new();
    assert!(registry.is_empty());
    registry.register(registry_schema(3)).unwrap();
    assert_eq!(registry.get("component.spatial", 3).unwrap().version, 3);
    assert!(registry.get("component.spatial", 2).is_none());
    assert!(registry.latest("component.other").is_none());
    assert!(registry.versions("component.other").is_empty());
    assert!(!registry.is_empty());
}

#[test]
fn registry_refuses_invalid_schema() {
    let mut registry = SchemaRegistry::new();
    let mut schema = registry_schema(1);
    schema.version = 0;
    assert!(matches!(
        registry.register(schema),
        Err(RegistryError::InvalidSchema(SchemaDefinitionError::ZeroVersion))
    ));
    assert_eq!(registry.len(), 0);
}

#[test]
fn component_count_counts_keys_once() {
    let mut registry = SchemaRegistry::new();
    registry.register(registry_schema(1)).unwrap();
    registry.register(registry_schema(2)).unwrap();
    registry
        .register(
            ComponentSchema::new(
                Key::new("component.another").unwrap(),
                1,
                Key::new("module.combat").unwrap(),
                vec![],
            )
            .unwrap(),
        )
        .unwrap();
    assert_eq!(registry.len(), 3);
    assert_eq!(registry.component_count(), 2);
    assert_eq!(registry.owned_by("module.combat").len(), 1);
}

#[test]
fn payload_must_be_an_object() {
    let schema = basic_schema(vec![]);
    let report = schema.validate_payload(&JsonValue::Bool(true), SchemaContext::RuntimeState);
    assert_eq!(report.issues.len(), 1);
    assert!(matches!(
        &report.issues[0].kind,
        ComponentValidationIssueKind::PayloadMustBeObject { actual: JsonValueKind::Bool }
    ));
    assert_eq!(report.issues[0].field, None);
}

#[test]
fn missing_required_field_is_reported_in_its_context() {
    let schema = basic_schema(vec![field("state", FieldType::String, PersistenceClass::Mutable)]);
    let report = schema.validate_payload(&object(vec![]), SchemaContext::RuntimeState);
    assert!(matches!(&report.issues[0].kind, ComponentValidationIssueKind::MissingRequiredField));
    assert_eq!(report.issues[0].field.as_deref(), Some("state"));
    let report = schema.validate_payload(&object(vec![]), SchemaContext::Definition);
    assert!(report.is_valid());
}

#[test]
fn type_mismatch_names_both_kinds() {
    let schema = basic_schema(vec![field("count", FieldType::UnsignedInteger, PersistenceClass::Mutable)]);
    let report = schema.validate_payload(&object(vec![("count", text("four"))]), SchemaContext::RuntimeState);
    assert!(matches!(
        &report.issues[0].kind,
        ComponentValidationIssueKind::TypeMismatch {
            expected: FieldType::UnsignedInteger,
            actual: JsonValueKind::String
        }
    ));
    assert_eq!(report.issues[0].kind.message(), "expected UnsignedInteger, got String");
}

#[test]
fn decimal_fields_accept_numbers_and_ranges_apply() {
    let constrained = field("fuel", FieldType::Decimal, PersistenceClass::Mutable).with_constraint(
        FieldConstraint::DecimalRange {
            min: Some(Decimal::new(0.0f64.to_bits(), "0".into(), "0.0".into(), "0.0".into())),
            max: Some(Decimal::new(54.0f64.to_bits(), "54".into(), "54.0".into(), "54.0".into())),
        },
    );
    let schema = basic_schema(vec![constrained]);
    assert!(schema
        .validate_payload(&object(vec![("fuel", decimal(12.5))]), SchemaContext::RuntimeState)
        .is_valid());
    assert!(schema
        .validate_payload(&object(vec![("fuel", unsigned(54))]), SchemaContext::RuntimeState)
        .is_valid());
    let report = schema.validate_payload(&object(vec![("fuel", decimal(54.5))]), SchemaContext::RuntimeState);
    assert!(matches!(&report.issues[0].kind, ComponentValidationIssueKind::ConstraintViolation { .. }));
    assert_eq!(report.issues[0].kind.message(), "54.5 is above maximum Some(54.0)");
}

#[test]
fn unsigned_range_reports_bound() {
    let constrained = field("count", FieldType::UnsignedInteger, PersistenceClass::Mutable)
        .with_constraint(FieldConstraint::UnsignedRange { min: Some(2), max: None });
    let schema = basic_schema(vec![constrained]);
    let report = schema.validate_payload(&object(vec![("count", unsigned(1))]), SchemaContext::RuntimeState);
    assert_eq!(report.issues[0].kind.message(), "1 is below minimum Some(2)");
    assert!(schema
        .validate_payload(&object(vec![("count", unsigned(2))]), SchemaContext::RuntimeState)
        .is_valid());
}

#[test]
fn field_lookup_finds_declared_fields() {
    let schema = basic_schema(vec![field("state", FieldType::String, PersistenceClass::Mutable)]);
    assert!(schema.field("state").is_some());
    assert!(schema.field("other").is_none());
    assert!(schema.validate_definition().is_ok());
    let r = schema.schema_ref();
    assert_eq!(r.key.as_str(), "component.test");
    assert_eq!(r.version, 1);
}

#[test]
fn component_schema_errors_explain_themselves() {
    let e = SchemaDefinitionError::IncompatibleConstraint {
        field: Key::new("state").unwrap(),
        field_type: FieldType::Bool,
        constraint: FieldConstraint::StringLength { min: Some(1), max: None },
    };
    assert_eq!(
        e.message(),
        "constraint StringLength { min: Some(1), max: None } is incompatible with field state type Bool"
    );
    let e = SchemaDefinitionError::InvalidConstraintBounds {
        field: Key::new("state").unwrap(),
        constraint: FieldConstraint::AllowedStrings { values: vec!["a\"b".into(), "c".into()] },
    };
    assert_eq!(
        e.message(),
        "constraint bounds are invalid for field state: AllowedStrings { values: [\"a\\\"b\", \"c\"] }"
    );
    assert_eq!(
        RegistryError::InvalidSchema(SchemaDefinitionError::ZeroVersion).message(),
        "invalid component schema: component schema version must be at least 1"
    );
    let e = FieldConstraint::IntegerRange { min: Some(-5), max: Some(7) };
    assert_eq!(e.debug_text(), format!("{:?}", e));
}

#[test]
fn invalid_uuid_items_quote_the_parser() {
    let schema = basic_schema(vec![field(
        "crew",
        FieldType::Array { items: Box::new(FieldType::EntityUid) },
        PersistenceClass::Mutable,
    )]);
    let report = schema.validate_payload(
        &object(vec![("crew", JsonValue::Array(vec![text("not-a-uuid")]))]),
        SchemaContext::RuntimeState,
    );
    let expected = format!(
        "array item 0 is not valid EntityUid: invalid EntityUid value: invalid UUID: {}",
        uuid::Uuid::parse_str("not-a-uuid").unwrap_err()
    );
    assert_eq!(report.issues[0].kind.message(), expected);
}

fn serde_message<T: serde::de::DeserializeOwned + std::fmt::Debug>(value: serde_json::Value) -> String {
    serde_json::from_value::<T>(value).unwrap_err().to_string()
}

fn domain_message(field_type: FieldType, value: JsonValue) -> String {
    let schema = basic_schema(vec![field("x", field_type, PersistenceClass::Mutable)]);
    let report = schema.validate_payload(&object(vec![("x", value)]), SchemaContext::RuntimeState);
    match &report.issues[0].kind {
        ComponentValidationIssueKind::InvalidDomainValue { message, .. } => message.clone(),
        other => panic!("unexpected issue {other:?}"),
    }
}

#[test]
fn domain_messages_match_the_json_readers() {
    assert_eq!(
        domain_message(FieldType::Key, unsigned(5)),
        serde_message::<String>(serde_json::Value::from(5u64))
    );
    assert_eq!(
        domain_message(FieldType::EntityUid, JsonValue::Bool(true)),
        serde_message::<String>(serde_json::Value::Bool(true))
    );
    assert_eq!(
        domain_message(FieldType::DisplayName, JsonValue::Null),
        serde_message::<String>(serde_json::Value::Null)
    );
    assert_eq!(
        domain_message(FieldType::SimTime, text("soon")),
        serde_message::<i64>(serde_json::Value::from("soon"))
    );
    assert_eq!(
        domain_message(FieldType::SimTime, unsigned(u64::MAX)),
        serde_message::<i64>(serde_json::Value::from(u64::MAX))
    );
    assert_eq!(
        domain_message(FieldType::Distance, JsonValue::Number(JsonNumber::from_i64(-3))),
        serde_message::<u64>(serde_json::Value::from(-3i64))
    );
    assert_eq!(
        domain_message(FieldType::Speed, decimal(1.5)),
        serde_message::<u64>(serde_json::Value::from(1.5f64))
    );
    assert_eq!(
        domain_message(FieldType::EventSequence, decimal(2.0)),
        serde_message::<u64>(serde_json::Value::from(2.0f64))
    );
    assert_eq!(
        domain_message(FieldType::Angle, unsigned(5_000_000_000)),
        serde_message::<u32>(serde_json::Value::from(5_000_000_000u64))
    );
    assert_eq!(
        domain_message(FieldType::Angle, JsonValue::Number(JsonNumber::from_i64(-1))),
        serde_message::<u32>(serde_json::Value::from(-1i64))
    );
    assert_eq!(
        domain_message(FieldType::StateRevision, JsonValue::Array(vec![])),
        serde_message::<u64>(serde_json::Value::Array(vec![]))
    );
    assert_eq!(
        domain_message(FieldType::Key, object(vec![])),
        serde_message::<String>(serde_json::Value::Object(serde_json::Map::new()))
    );
    assert_eq!(
        domain_message(FieldType::Speed, decimal(1e20)),
        serde_message::<u64>(serde_json::Value::from(1e20f64))
    );
    assert_eq!(
        domain_message(FieldType::Key, text("Bad Key")),
        "key segment 0 begins with invalid character 'B'"
    );
    assert_eq!(domain_message(FieldType::Angle, unsigned(360_000)), "quantity is outside the supported range");
    assert_eq!(
        domain_message(FieldType::SimDuration, JsonValue::Number(JsonNumber::from_i64(-1))),
        "simulation duration cannot be negative"
    );
}

#[test]
fn decimal_range_messages_quote_integers_as_decimals() {
    let constrained = field("fuel", FieldType::Decimal, PersistenceClass::Mutable).with_constraint(
        FieldConstraint::DecimalRange {
            min: None,
            max: Some(Decimal::new(54.0f64.to_bits(), "54".into(), "54.0".into(), "54.0".into())),
        },
    );
    let schema = basic_schema(vec![constrained]);
    let big = 9_007_199_254_740_993u64;
    let report = schema.validate_payload(&object(vec![("fuel", unsigned(big))]), SchemaContext::RuntimeState);
    assert_eq!(report.issues[0].kind.message(), format!("{} is above maximum Some(54.0)", big as f64));
    let report = schema.validate_payload(&object(vec![("fuel", unsigned(55))]), SchemaContext::RuntimeState);
    assert_eq!(report.issues[0].kind.message(), "55 is above maximum Some(54.0)");
}
