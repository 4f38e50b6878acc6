//! Structural validation of one JSON value against one field schema.
use crate::schema::constraint::{FieldConstraint, FieldConstraintView, opt_i64, opt_u64, opt_usize};
use crate::schema::context::SchemaContext;
use crate::schema::decimal::{bits_lt, lt_bits, Decimal};
use crate::schema::field::{FieldSchema, FieldType};
use crate::schema::json::{JsonNumber, JsonValue, JsonValueKind, NumberRepr, kind_of};
use crate::schema::persistence::PersistenceClass;
use crate::schema::serde_text::{Unexpected, reader_expectation, i64_decimal_display, i64_decimal_text, u64_decimal_display, u64_decimal_text, invalid_signed_message, invalid_type_message_of, invalid_unsigned_message};
use crate::text::{int_text, i64_text, u64_text, usize_text, str_debug, str_debug_text, join, some_text, some_wrapped};
use crate::types::display_name::{DisplayName, display_name_check, display_name_error_text};
use crate::types::key::{Key, key_check, byte_len, key_error_text, valid_key};
use crate::types::quantity::{Angle, QuantityError, quantity_error_text};
use crate::types::time::{TimeError, time_error_text};
use crate::types::uid::{uuid_parse_result, uuid_error_text, uuid_parse_error_text, EntityUid};
use vstd::prelude::*;
use vstd::string::*;

verus! {

#[derive(Debug)]
pub enum ComponentValidationIssueKind {
    PayloadMustBeObject { actual: JsonValueKind },
    MissingRequiredField,
    UnknownField,
    PersistenceMismatch { field_persistence: PersistenceClass, context: SchemaContext },
    TypeMismatch { expected: FieldType, actual: JsonValueKind },
    InvalidDomainValue { expected: FieldType, message: String },
    ConstraintViolation { constraint: FieldConstraint, message: String },
    InvalidArrayItem { index: usize, expected: FieldType, message: String },
}

/// An issue kind as seen by contracts.
pub enum IssueKindView {
    PayloadMustBeObject { actual: JsonValueKind },
    MissingRequiredField,
    UnknownField,
    PersistenceMismatch { field_persistence: PersistenceClass, context: SchemaContext },
    TypeMismatch { expected: FieldType, actual: JsonValueKind },
    InvalidDomainValue { expected: FieldType, message: Seq<char> },
    ConstraintViolation { constraint: FieldConstraintView, message: Seq<char> },
    InvalidArrayItem { index: usize, expected: FieldType, message: Seq<char> },
}

impl View for ComponentValidationIssueKind {
    type V = IssueKindView;

    open spec fn view(&self) -> IssueKindView {
        match *self {
            ComponentValidationIssueKind::PayloadMustBeObject { actual } =>
                IssueKindView::PayloadMustBeObject { actual },
            ComponentValidationIssueKind::MissingRequiredField => IssueKindView::MissingRequiredField,
            ComponentValidationIssueKind::UnknownField => IssueKindView::UnknownField,
            ComponentValidationIssueKind::PersistenceMismatch { field_persistence, context } =>
                IssueKindView::PersistenceMismatch { field_persistence, context },
            ComponentValidationIssueKind::TypeMismatch { expected, actual } =>
                IssueKindView::TypeMismatch { expected, actual },
            ComponentValidationIssueKind::InvalidDomainValue { expected, message } =>
                IssueKindView::InvalidDomainValue { expected, message: message@ },
            ComponentValidationIssueKind::ConstraintViolation { constraint, message } =>
                IssueKindView::ConstraintViolation { constraint: constraint@, message: message@ },
            ComponentValidationIssueKind::InvalidArrayItem { index, expected, message } =>
                IssueKindView::InvalidArrayItem { index, expected, message: message@ },
        }
    }
}

#[derive(Debug)]
pub struct ComponentValidationIssue {
    pub field: Option<String>,
    pub kind: ComponentValidationIssueKind,
}

pub struct ComponentValidationIssueView {
    pub field: Option<Seq<char>>,
    pub kind: IssueKindView,
}

pub open spec fn opt_string_view(s: Option<String>) -> Option<Seq<char>> {
    match s {
        Some(x) => Some(x@),
        None => None,
    }
}

impl View for ComponentValidationIssue {
    type V = ComponentValidationIssueView;

    open spec fn view(&self) -> ComponentValidationIssueView {
        ComponentValidationIssueView { field: opt_string_view(self.field), kind: self.kind@ }
    }
}

/// The findings of one payload validation, in the order they were found.
#[derive(Debug)]
pub struct ComponentValidationReport {
    pub issues: Vec<ComponentValidationIssue>,
}

impl View for ComponentValidationReport {
    type V = Seq<ComponentValidationIssueView>;

    open spec fn view(&self) -> Seq<ComponentValidationIssueView> {
        self.issues@.map_values(|i: ComponentValidationIssue| i@)
    }
}

impl Default for ComponentValidationReport {
    fn default() -> (r: Self)
        ensures
            r@ == Seq::<ComponentValidationIssueView>::empty(),
    {
        let r = ComponentValidationReport { issues: Vec::new() };
        assert(r@ =~= Seq::<ComponentValidationIssueView>::empty());
        r
    }
}

impl ComponentValidationReport {
    pub fn push(&mut self, issue: ComponentValidationIssue)
        ensures
            final(self)@ == old(self)@.push(issue@),
    {
        self.issues.push(issue);
        assert(self@ =~= old(self)@.push(issue@));
    }

    pub fn is_valid(&self) -> (r: bool)
        ensures
            r == (self@.len() == 0),
    {
        self.issues.len() == 0
    }
}

// ----------------------------------------------------------------------
// Debug names used in messages
// ----------------------------------------------------------------------
/// What the derived `Debug` writes for a field type.
pub open spec fn field_type_text(t: FieldType) -> Seq<char>
    decreases t,
{
    match t {
        FieldType::Bool => "Bool"@,
        FieldType::Integer => "Integer"@,
        FieldType::UnsignedInteger => "UnsignedInteger"@,
        FieldType::Decimal => "Decimal"@,
        FieldType::String => "String"@,
        FieldType::DisplayName => "DisplayName"@,
        FieldType::Key => "Key"@,
        FieldType::EntityUid => "EntityUid"@,
        FieldType::DefinitionUid => "DefinitionUid"@,
        FieldType::RelationshipUid => "RelationshipUid"@,
        FieldType::EventUid => "EventUid"@,
        FieldType::CorrelationUid => "CorrelationUid"@,
        FieldType::PackageUid => "PackageUid"@,
        FieldType::SourceUid => "SourceUid"@,
        FieldType::SnapshotUid => "SnapshotUid"@,
        FieldType::BranchUid => "BranchUid"@,
        FieldType::SimTime => "SimTime"@,
        FieldType::SimDuration => "SimDuration"@,
        FieldType::EventSequence => "EventSequence"@,
        FieldType::StateRevision => "StateRevision"@,
        FieldType::Distance => "Distance"@,
        FieldType::Speed => "Speed"@,
        FieldType::RotationalSpeed => "RotationalSpeed"@,
        FieldType::Angle => "Angle"@,
        FieldType::Object => "Object"@,
        FieldType::Array { items } => "Array { items: "@ + field_type_text(*items) + " }"@,
    }
}

pub fn field_type_name(t: &FieldType) -> (r: String)
    ensures
        r@ == field_type_text(*t),
    decreases t,
{
    match t {
        FieldType::Bool => String::from_str("Bool"),
        FieldType::Integer => String::from_str("Integer"),
        FieldType::UnsignedInteger => String::from_str("UnsignedInteger"),
        FieldType::Decimal => String::from_str("Decimal"),
        FieldType::String => String::from_str("String"),
        FieldType::DisplayName => String::from_str("DisplayName"),
        FieldType::Key => String::from_str("Key"),
        FieldType::EntityUid => String::from_str("EntityUid"),
        FieldType::DefinitionUid => String::from_str("DefinitionUid"),
        FieldType::RelationshipUid => String::from_str("RelationshipUid"),
        FieldType::EventUid => String::from_str("EventUid"),
        FieldType::CorrelationUid => String::from_str("CorrelationUid"),
        FieldType::PackageUid => String::from_str("PackageUid"),
        FieldType::SourceUid => String::from_str("SourceUid"),
        FieldType::SnapshotUid => String::from_str("SnapshotUid"),
        FieldType::BranchUid => String::from_str("BranchUid"),
        FieldType::SimTime => String::from_str("SimTime"),
        FieldType::SimDuration => String::from_str("SimDuration"),
        FieldType::EventSequence => String::from_str("EventSequence"),
        FieldType::StateRevision => String::from_str("StateRevision"),
        FieldType::Distance => String::from_str("Distance"),
        FieldType::Speed => String::from_str("Speed"),
        FieldType::RotationalSpeed => String::from_str("RotationalSpeed"),
        FieldType::Angle => String::from_str("Angle"),
        FieldType::Object => String::from_str("Object"),
        FieldType::Array { items } => {
            let inner: &FieldType = items;
            let m = join(String::from_str("Array { items: "), field_type_name(inner).as_str());
            join(m, " }")
        },
    }
}

pub open spec fn json_kind_text(k: JsonValueKind) -> Seq<char> {
    match k {
        JsonValueKind::Null => "Null"@,
        JsonValueKind::Bool => "Bool"@,
        JsonValueKind::Number => "Number"@,
        JsonValueKind::String => "String"@,
        JsonValueKind::Array => "Array"@,
        JsonValueKind::Object => "Object"@,
    }
}

pub fn json_kind_name(k: JsonValueKind) -> (r: String)
    ensures
        r@ == json_kind_text(k),
{
    match k {
        JsonValueKind::Null => String::from_str("Null"),
        JsonValueKind::Bool => String::from_str("Bool"),
        JsonValueKind::Number => String::from_str("Number"),
        JsonValueKind::String => String::from_str("String"),
        JsonValueKind::Array => String::from_str("Array"),
        JsonValueKind::Object => String::from_str("Object"),
    }
}

pub open spec fn persistence_text(p: PersistenceClass) -> Seq<char> {
    match p {
        PersistenceClass::Definition => "Definition"@,
        PersistenceClass::Initial => "Initial"@,
        PersistenceClass::Mutable => "Mutable"@,
        PersistenceClass::Event => "Event"@,
        PersistenceClass::Derived => "Derived"@,
        PersistenceClass::Ephemeral => "Ephemeral"@,
    }
}

pub fn persistence_name(p: PersistenceClass) -> (r: String)
    ensures
        r@ == persistence_text(p),
{
    match p {
        PersistenceClass::Definition => String::from_str("Definition"),
        PersistenceClass::Initial => String::from_str("Initial"),
        PersistenceClass::Mutable => String::from_str("Mutable"),
        PersistenceClass::Event => String::from_str("Event"),
        PersistenceClass::Derived => String::from_str("Derived"),
        PersistenceClass::Ephemeral => String::from_str("Ephemeral"),
    }
}

pub open spec fn context_text(c: SchemaContext) -> Seq<char> {
    match c {
        SchemaContext::Definition => "Definition"@,
        SchemaContext::InitialState => "InitialState"@,
        SchemaContext::RuntimeState => "RuntimeState"@,
        SchemaContext::Event => "Event"@,
        SchemaContext::Derived => "Derived"@,
        SchemaContext::Ephemeral => "Ephemeral"@,
    }
}

pub fn context_name(c: SchemaContext) -> (r: String)
    ensures
        r@ == context_text(c),
{
    match c {
        SchemaContext::Definition => String::from_str("Definition"),
        SchemaContext::InitialState => String::from_str("InitialState"),
        SchemaContext::RuntimeState => String::from_str("RuntimeState"),
        SchemaContext::Event => String::from_str("Event"),
        SchemaContext::Derived => String::from_str("Derived"),
        SchemaContext::Ephemeral => String::from_str("Ephemeral"),
    }
}

/// The text that describes an issue.
pub open spec fn issue_text(k: IssueKindView) -> Seq<char> {
    match k {
        IssueKindView::PayloadMustBeObject { actual } =>
            "component payload must be an object, got "@ + json_kind_text(actual),
        IssueKindView::MissingRequiredField => "required field is missing"@,
        IssueKindView::UnknownField => "field is not declared by this schema"@,
        IssueKindView::PersistenceMismatch { field_persistence, context } => "field persistence "@
            + persistence_text(field_persistence) + " is not allowed in "@ + context_text(context)
            + " context"@,
        IssueKindView::TypeMismatch { expected, actual } => "expected "@ + field_type_text(expected)
            + ", got "@ + json_kind_text(actual),
        IssueKindView::InvalidDomainValue { expected, message } => "invalid "@ + field_type_text(
            expected,
        ) + " value: "@ + message,
        IssueKindView::ConstraintViolation { constraint, message } => message,
        IssueKindView::InvalidArrayItem { index, expected, message } => "array item "@ + int_text(
            index as int,
        ) + " is not valid "@ + field_type_text(expected) + ": "@ + message,
    }
}

impl ComponentValidationIssueKind {
    pub fn message(&self) -> (r: String)
        ensures
            r@ == issue_text(self@),
    {
        match self {
            ComponentValidationIssueKind::PayloadMustBeObject { actual } => join(
                String::from_str("component payload must be an object, got "),
                json_kind_name(*actual).as_str(),
            ),
            ComponentValidationIssueKind::MissingRequiredField => String::from_str(
                "required field is missing",
            ),
            ComponentValidationIssueKind::UnknownField => String::from_str(
                "field is not declared by this schema",
            ),
            ComponentValidationIssueKind::PersistenceMismatch { field_persistence, context } => {
                let m = join(
                    String::from_str("field persistence "),
                    persistence_name(*field_persistence).as_str(),
                );
                let m = join(m, " is not allowed in ");
                let m = join(m, context_name(*context).as_str());
                join(m, " context")
            },
            ComponentValidationIssueKind::TypeMismatch { expected, actual } => {
                let m = join(String::from_str("expected "), field_type_name(expected).as_str());
                let m = join(m, ", got ");
                join(m, json_kind_name(*actual).as_str())
            },
            ComponentValidationIssueKind::InvalidDomainValue { expected, message } => {
                let m = join(String::from_str("invalid "), field_type_name(expected).as_str());
                let m = join(m, " value: ");
                join(m, message.as_str())
            },
            ComponentValidationIssueKind::ConstraintViolation { message, .. } => message.clone(),
            ComponentValidationIssueKind::InvalidArrayItem { index, expected, message } => {
                let m = join(String::from_str("array item "), usize_text(*index).as_str());
                let m = join(m, " is not valid ");
                let m = join(m, field_type_name(expected).as_str());
                let m = join(m, ": ");
                join(m, message.as_str())
            },
        }
    }
}

// ----------------------------------------------------------------------
// Base type of a value
// ----------------------------------------------------------------------
pub open spec fn domain_issue(expected: FieldType, message: Seq<char>) -> Option<IssueKindView> {
    Some(IssueKindView::InvalidDomainValue { expected, message })
}

pub open spec fn mismatch_issue(expected: FieldType, value: JsonValue) -> Option<IssueKindView> {
    Some(IssueKindView::TypeMismatch { expected, actual: kind_of(value) })
}

/// How a value fails to be text for a domain type written as a JSON string.
pub open spec fn string_domain_issue(expected: FieldType, value: JsonValue) -> Option<IssueKindView> {
    match value {
        JsonValue::String(s) => match expected {
            FieldType::DisplayName => match display_name_check(s@) {
                Ok(_) => None,
                Err(e) => domain_issue(expected, display_name_error_text(e)),
            },
            FieldType::Key => match key_check(s@, byte_len(s@)) {
                Ok(_) => None,
                Err(e) => domain_issue(expected, key_error_text(e)),
            },
            _ => match uuid_parse_result(s@) {
                Some(v) => if v != 0 {
                    None
                } else {
                    domain_issue(expected, "nil UUID is not permitted as a VBF identifier"@)
                },
                None => domain_issue(expected, "invalid UUID: "@ + uuid_error_text(s@)),
            },
        },
        _ => domain_issue(expected, invalid_type_text(value, "a string"@)),
    }
}

/// What `serde_json` writes for a JSON value it did not expect.
pub open spec fn unexpected_text(value: JsonValue) -> Seq<char> {
    match value {
        JsonValue::Null => "null"@,
        JsonValue::Bool(b) => if b {
            "boolean `true`"@
        } else {
            "boolean `false`"@
        },
        JsonValue::Number(n) => match n.repr() {
            NumberRepr::PosInt(u) => "integer `"@ + int_text(u as int) + "`"@,
            NumberRepr::NegInt(i) => "integer `"@ + int_text(i as int) + "`"@,
            NumberRepr::Float(d) => "floating point `"@ + d.json@ + "`"@,
        },
        JsonValue::String(t) => "string "@ + str_debug_text(t@),
        JsonValue::Array(_) => "sequence"@,
        JsonValue::Object(_) => "map"@,
    }
}

/// The message of a value of the wrong JSON type for a reader that expects
/// `expected`.
pub open spec fn invalid_type_text(value: JsonValue, expected: Seq<char>) -> Seq<char> {
    "invalid type: "@ + unexpected_text(value) + ", expected "@ + expected
}

/// The message of an integer out of a reader's range.
pub open spec fn invalid_integer_text(n: int, expected: Seq<char>) -> Seq<char> {
    "invalid value: integer `"@ + int_text(n) + "`, expected "@ + expected
}

/// Reading `value` as an `i64`: any integer in range.
pub open spec fn read_i64(value: JsonValue) -> Result<int, Seq<char>> {
    match value {
        JsonValue::Number(n) => match n.repr() {
            NumberRepr::PosInt(u) => if u <= i64::MAX {
                Ok(u as int)
            } else {
                Err(invalid_integer_text(u as int, "i64"@))
            },
            NumberRepr::NegInt(i) => Ok(i as int),
            NumberRepr::Float(_) => Err(invalid_type_text(value, "i64"@)),
        },
        _ => Err(invalid_type_text(value, "i64"@)),
    }
}

/// Reading `value` as a `u64`: any non-negative integer.
pub open spec fn read_u64(value: JsonValue) -> Result<int, Seq<char>> {
    match value {
        JsonValue::Number(n) => match n.repr() {
            NumberRepr::PosInt(u) => Ok(u as int),
            NumberRepr::NegInt(i) => Err(invalid_integer_text(i as int, "u64"@)),
            NumberRepr::Float(_) => Err(invalid_type_text(value, "u64"@)),
        },
        _ => Err(invalid_type_text(value, "u64"@)),
    }
}

/// Reading `value` as a `u32`: any integer from zero to `u32::MAX`.
pub open spec fn read_u32(value: JsonValue) -> Result<int, Seq<char>> {
    match value {
        JsonValue::Number(n) => match n.repr() {
            NumberRepr::PosInt(u) => if u <= u32::MAX {
                Ok(u as int)
            } else {
                Err(invalid_integer_text(u as int, "u32"@))
            },
            NumberRepr::NegInt(i) => Err(invalid_integer_text(i as int, "u32"@)),
            NumberRepr::Float(_) => Err(invalid_type_text(value, "u32"@)),
        },
        _ => Err(invalid_type_text(value, "u32"@)),
    }
}

pub open spec fn is_uid_type(t: FieldType) -> bool {
    match t {
        FieldType::EntityUid | FieldType::DefinitionUid | FieldType::RelationshipUid
        | FieldType::EventUid | FieldType::CorrelationUid | FieldType::PackageUid
        | FieldType::SourceUid | FieldType::SnapshotUid | FieldType::BranchUid => true,
        _ => false,
    }
}

pub open spec fn number_of(value: JsonValue) -> Option<JsonNumber> {
    match value {
        JsonValue::Number(n) => Some(n),
        _ => None,
    }
}

/// The issue that a value raises against a field type, if any. Domain
/// types are checked as their own parsers check them.
pub open spec fn type_issue(expected: FieldType, value: JsonValue) -> Option<IssueKindView>
    decreases expected, 0nat,
{
    match expected {
        FieldType::Bool => if value is Bool {
            None
        } else {
            mismatch_issue(expected, value)
        },
        FieldType::Integer => if number_of(value) matches Some(n) && n.spec_as_i64() is Some {
            None
        } else {
            mismatch_issue(expected, value)
        },
        FieldType::UnsignedInteger => if number_of(value) matches Some(n) && n.spec_as_u64() is Some {
            None
        } else {
            mismatch_issue(expected, value)
        },
        FieldType::Decimal => if value is Number {
            None
        } else {
            mismatch_issue(expected, value)
        },
        FieldType::String => if value is String {
            None
        } else {
            mismatch_issue(expected, value)
        },
        FieldType::Object => if value is Object {
            None
        } else {
            mismatch_issue(expected, value)
        },
        FieldType::DisplayName | FieldType::Key => string_domain_issue(expected, value),
        FieldType::SimTime => match read_i64(value) {
            Ok(_) => None,
            Err(m) => domain_issue(expected, m),
        },
        FieldType::SimDuration => match read_i64(value) {
            Ok(i) => if i >= 0 {
                None
            } else {
                domain_issue(expected, time_error_text(TimeError::NegativeDuration))
            },
            Err(m) => domain_issue(expected, m),
        },
        FieldType::Angle => match read_u32(value) {
            Ok(u) => if u < 360_000 {
                None
            } else {
                domain_issue(expected, quantity_error_text(QuantityError::OutOfRange))
            },
            Err(m) => domain_issue(expected, m),
        },
        FieldType::Array { items } => match value {
            JsonValue::Array(a) => match array_issue(*items, a@, a@.len() as int) {
                Some((index, inner)) => Some(
                    IssueKindView::InvalidArrayItem {
                        index: index as usize,
                        expected: *items,
                        message: issue_text(inner),
                    },
                ),
                None => None,
            },
            _ => mismatch_issue(expected, value),
        },
        _ => if is_uid_type(expected) {
            string_domain_issue(expected, value)
        } else {
            // the unsigned domain types
            match read_u64(value) {
                Ok(_) => None,
                Err(m) => domain_issue(expected, m),
            }
        },
    }
}

/// The first of the first `n` items of `a` that is not of type `items`, with its issue.
pub open spec fn array_issue(items: FieldType, a: Seq<JsonValue>, n: int) -> Option<
    (int, IssueKindView),
>
    decreases items, n + 1,
{
    if n <= 0 || n > a.len() {
        None
    } else {
        match array_issue(items, a, n - 1) {
            Some(x) => Some(x),
            None => match type_issue(items, a[n - 1]) {
                Some(k) => Some((n - 1, k)),
                None => None,
            },
        }
    }
}

fn string_domain_check(expected: &FieldType, value: &JsonValue) -> (r: Result<
    (),
    ComponentValidationIssueKind,
>)
    requires
        *expected is DisplayName || *expected is Key || is_uid_type(*expected),
    ensures
        match r {
            Ok(_) => string_domain_issue(*expected, *value) is None,
            Err(k) => string_domain_issue(*expected, *value) == Some(k@),
        },
{
    match value {
        JsonValue::String(s) => {
            let text = s.as_str();
            match expected {
                FieldType::DisplayName => match DisplayName::new(text) {
                    Ok(_) => Ok(()),
                    Err(e) => Err(
                        ComponentValidationIssueKind::InvalidDomainValue {
                            expected: expected.clone(),
                            message: e.message(),
                        },
                    ),
                },
                FieldType::Key => match Key::new(text) {
                    Ok(_) => Ok(()),
                    Err(e) => Err(
                        ComponentValidationIssueKind::InvalidDomainValue {
                            expected: expected.clone(),
                            message: e.message(),
                        },
                    ),
                },
                _ => match EntityUid::parse_text(text) {
                    Ok(_) => Ok(()),
                    Err(e) => {
                        let message = match e {
                            crate::types::uid::IdParseError::NilUuid => String::from_str(
                                "nil UUID is not permitted as a VBF identifier",
                            ),
                            crate::types::uid::IdParseError::InvalidUuid(_) => join(
                                String::from_str("invalid UUID: "),
                                uuid_parse_error_text(text).as_str(),
                            ),
                        };
                        Err(
                            ComponentValidationIssueKind::InvalidDomainValue {
                                expected: expected.clone(),
                                message,
                            },
                        )
                    },
                },
            }
        },
        _ => Err(
            ComponentValidationIssueKind::InvalidDomainValue {
                expected: expected.clone(),
                message: invalid_type_message(value, "a string"),
            },
        ),
    }
}

fn invalid_type_message(value: &JsonValue, expected: &str) -> (r: String)
    requires
        reader_expectation(expected@),
    ensures
        r@ == invalid_type_text(*value, expected@),
{
    let unexpected = match value {
        JsonValue::Null => Unexpected::Null,
        JsonValue::Bool(b) => Unexpected::Bool(*b),
        JsonValue::Number(n) => {
            proof {
                n.lemma_canonical_spec();
            }
            match n.as_decimal() {
                Some(d) => {
                    // `serde_json` quotes a decimal by its own text for it.
                    let out = join(String::from_str("invalid type: "), "floating point `");
                    let out = join(out, d.json.as_str());
                    let out = join(out, "`");
                    let out = join(out, ", expected ");
                    let r = join(out, expected);
                    assert(r@ =~= invalid_type_text(*value, expected@));
                    return r;
                },
                None => match n.as_u64() {
                    Some(u) => Unexpected::Unsigned(u),
                    None => Unexpected::Signed(n.as_i64().unwrap()),
                },
            }
        },
        JsonValue::String(t) => Unexpected::Text(t.clone()),
        JsonValue::Array(_) => Unexpected::Array,
        JsonValue::Object(_) => Unexpected::Object,
    };
    invalid_type_message_of(&unexpected, expected)
}

fn read_i64_value(value: &JsonValue) -> (r: Result<i64, String>)
    ensures
        match read_i64(*value) {
            Ok(i) => r matches Ok(x) && x as int == i,
            Err(m) => r matches Err(x) && x@ == m,
        },
{
    match value {
        JsonValue::Number(n) => {
            proof {
                n.lemma_canonical_spec();
            }
            if n.as_decimal().is_some() {
                return Err(invalid_type_message(value, "i64"));
            }
            match n.as_i64() {
                Some(i) => Ok(i),
                None => {
                    let u = n.as_u64().unwrap();
                    Err(invalid_unsigned_message(u, "i64"))
                },
            }
        },
        _ => Err(invalid_type_message(value, "i64")),
    }
}

fn read_u64_value(value: &JsonValue) -> (r: Result<u64, String>)
    ensures
        match read_u64(*value) {
            Ok(u) => r matches Ok(x) && x as int == u,
            Err(m) => r matches Err(x) && x@ == m,
        },
{
    match value {
        JsonValue::Number(n) => {
            proof {
                n.lemma_canonical_spec();
            }
            if n.as_decimal().is_some() {
                return Err(invalid_type_message(value, "u64"));
            }
            match n.as_u64() {
                Some(u) => Ok(u),
                None => {
                    let i = n.as_i64().unwrap();
                    Err(invalid_signed_message(i, "u64"))
                },
            }
        },
        _ => Err(invalid_type_message(value, "u64")),
    }
}

fn read_u32_value(value: &JsonValue) -> (r: Result<u32, String>)
    ensures
        match read_u32(*value) {
            Ok(u) => r matches Ok(x) && x as int == u,
            Err(m) => r matches Err(x) && x@ == m,
        },
{
    match value {
        JsonValue::Number(n) => {
            proof {
                n.lemma_canonical_spec();
            }
            if n.as_decimal().is_some() {
                return Err(invalid_type_message(value, "u32"));
            }
            match n.as_u64() {
                Some(u) => if u <= u32::MAX as u64 {
                    Ok(u as u32)
                } else {
                    Err(invalid_unsigned_message(u, "u32"))
                },
                None => {
                    let i = n.as_i64().unwrap();
                    Err(invalid_signed_message(i, "u32"))
                },
            }
        },
        _ => Err(invalid_type_message(value, "u32")),
    }
}

fn mismatch(expected: &FieldType, value: &JsonValue) -> (r: ComponentValidationIssueKind)
    ensures
        Some(r@) == mismatch_issue(*expected, *value),
{
    ComponentValidationIssueKind::TypeMismatch {
        expected: expected.clone(),
        actual: JsonValueKind::of(value),
    }
}

/// Checks the base type of `value`.
pub fn validate_type(expected: &FieldType, value: &JsonValue) -> (r: Result<
    (),
    ComponentValidationIssueKind,
>)
    ensures
        match r {
            Ok(_) => type_issue(*expected, *value) is None,
            Err(k) => type_issue(*expected, *value) == Some(k@),
        },
    decreases expected,
{
    match expected {
        FieldType::Bool => if matches!(value, JsonValue::Bool(_)) {
            Ok(())
        } else {
            Err(mismatch(expected, value))
        },
        FieldType::Integer => {
            let ok = match value.as_number() {
                Some(n) => n.as_i64().is_some(),
                None => false,
            };
            if ok {
                Ok(())
            } else {
                Err(mismatch(expected, value))
            }
        },
        FieldType::UnsignedInteger => {
            let ok = match value.as_number() {
                Some(n) => n.as_u64().is_some(),
                None => false,
            };
            if ok {
                Ok(())
            } else {
                Err(mismatch(expected, value))
            }
        },
        FieldType::Decimal => if matches!(value, JsonValue::Number(_)) {
            Ok(())
        } else {
            Err(mismatch(expected, value))
        },
        FieldType::String => if matches!(value, JsonValue::String(_)) {
            Ok(())
        } else {
            Err(mismatch(expected, value))
        },
        FieldType::Object => if matches!(value, JsonValue::Object(_)) {
            Ok(())
        } else {
            Err(mismatch(expected, value))
        },
        FieldType::DisplayName | FieldType::Key | FieldType::EntityUid | FieldType::DefinitionUid
        | FieldType::RelationshipUid | FieldType::EventUid | FieldType::CorrelationUid
        | FieldType::PackageUid | FieldType::SourceUid | FieldType::SnapshotUid
        | FieldType::BranchUid => string_domain_check(expected, value),
        FieldType::SimTime => match read_i64_value(value) {
            Ok(_) => Ok(()),
            Err(message) => Err(
                ComponentValidationIssueKind::InvalidDomainValue { expected: expected.clone(), message },
            ),
        },
        FieldType::SimDuration => match read_i64_value(value) {
            Ok(i) => if i >= 0 {
                Ok(())
            } else {
                Err(
                    ComponentValidationIssueKind::InvalidDomainValue {
                        expected: expected.clone(),
                        message: TimeError::NegativeDuration.message(),
                    },
                )
            },
            Err(message) => Err(
                ComponentValidationIssueKind::InvalidDomainValue { expected: expected.clone(), message },
            ),
        },
        FieldType::Angle => match read_u32_value(value) {
            Ok(u) => if u < 360_000 {
                Ok(())
            } else {
                Err(
                    ComponentValidationIssueKind::InvalidDomainValue {
                        expected: expected.clone(),
                        message: QuantityError::OutOfRange.message(),
                    },
                )
            },
            Err(message) => Err(
                ComponentValidationIssueKind::InvalidDomainValue { expected: expected.clone(), message },
            ),
        },
        FieldType::EventSequence | FieldType::StateRevision | FieldType::Distance
        | FieldType::Speed | FieldType::RotationalSpeed => match read_u64_value(value) {
            Ok(_) => Ok(()),
            Err(message) => Err(
                ComponentValidationIssueKind::InvalidDomainValue { expected: expected.clone(), message },
            ),
        },
        FieldType::Array { items } => {
            let inner_type: &FieldType = items;
            match value.as_array() {
                None => Err(mismatch(expected, value)),
                Some(array) => {
                    let n = array.len();
                    let mut index: usize = 0;
                    #[verifier::loop_isolation(false)]
                    while index < n
                        invariant
                            n == array@.len(),
                            index <= n,
                            array_issue(*inner_type, array@, index as int) is None,
                        decreases n - index,
                    {
                        match validate_type(inner_type, &array[index]) {
                            Err(issue) => {
                                assert(array_issue(*inner_type, array@, index + 1) == Some(
                                    (index as int, issue@),
                                ));
                                proof {
                                    lemma_array_issue_stable(
                                        *inner_type,
                                        array@,
                                        index + 1,
                                        n as int,
                                    );
                                }
                                let message = issue.message();
                                return Err(
                                    ComponentValidationIssueKind::InvalidArrayItem {
                                        index,
                                        expected: inner_type.clone(),
                                        message,
                                    },
                                );
                            },
                            Ok(_) => {},
                        }
                        index = index + 1;
                    }
                    Ok(())
                },
            }
        },
    }
}

proof fn lemma_array_issue_stable(items: FieldType, a: Seq<JsonValue>, m: int, n: int)
    requires
        0 < m <= n <= a.len(),
        array_issue(items, a, m) is Some,
    ensures
        array_issue(items, a, n) == array_issue(items, a, m),
    decreases n - m,
{
    if n > m {
        lemma_array_issue_stable(items, a, m, n - 1);
    }
}

// ----------------------------------------------------------------------
// Constraints
// ----------------------------------------------------------------------
/// How a number is written in a decimal-range message: as the `Display`
/// text of the decimal the number reads as, which for an integer is the
/// nearest `f64`.
pub open spec fn number_text(n: JsonNumber) -> Seq<char> {
    match n.repr() {
        NumberRepr::PosInt(u) => u64_decimal_text(u),
        NumberRepr::NegInt(i) => i64_decimal_text(i),
        NumberRepr::Float(d) => d.display@,
    }
}

fn number_display(n: &JsonNumber) -> (r: String)
    ensures
        r@ == number_text(*n),
{
    match n.as_decimal() {
        Some(d) => d.display.clone(),
        None => match n.as_u64() {
            Some(u) => u64_decimal_display(u),
            None => {
                proof {
                    n.lemma_canonical_spec();
                }
                let i = n.as_i64();
                i64_decimal_display(i.unwrap())
            },
        },
    }
}

pub open spec fn violation(c: FieldConstraint, message: Seq<char>) -> Option<IssueKindView> {
    Some(IssueKindView::ConstraintViolation { constraint: c@, message })
}

pub open spec fn below_text(number: Seq<char>, bound: Seq<char>) -> Seq<char> {
    number + " is below minimum "@ + some_text(bound)
}

pub open spec fn above_text(number: Seq<char>, bound: Seq<char>) -> Seq<char> {
    number + " is above maximum "@ + some_text(bound)
}

pub open spec fn strings_contain(values: Seq<String>, s: Seq<char>) -> bool {
    exists|i: int| 0 <= i < values.len() && (#[trigger] values[i])@ == s
}

/// The violation of one constraint by a value whose base type already
/// matched; constraints that do not apply to the value's kind are silent.
pub open spec fn constraint_issue(c: FieldConstraint, value: JsonValue) -> Option<IssueKindView> {
    match c {
        FieldConstraint::IntegerRange { min, max } => match number_of(value) {
            Some(n) => match n.spec_as_i64() {
                Some(x) => if min is Some && x < min->0 {
                    violation(c, below_text(int_text(x as int), int_text(min->0 as int)))
                } else if max is Some && x > max->0 {
                    violation(c, above_text(int_text(x as int), int_text(max->0 as int)))
                } else {
                    None
                },
                None => None,
            },
            None => None,
        },
        FieldConstraint::UnsignedRange { min, max } => match number_of(value) {
            Some(n) => match n.spec_as_u64() {
                Some(x) => if min is Some && x < min->0 {
                    violation(c, below_text(int_text(x as int), int_text(min->0 as int)))
                } else if max is Some && x > max->0 {
                    violation(c, above_text(int_text(x as int), int_text(max->0 as int)))
                } else {
                    None
                },
                None => None,
            },
            None => None,
        },
        FieldConstraint::DecimalRange { min, max } => match number_of(value) {
            Some(n) => {
                let x = n.spec_as_f64_bits();
                if min is Some && bits_lt(x, min->0.bits) {
                    violation(c, below_text(number_text(n), min->0.debug@))
                } else if max is Some && bits_lt(max->0.bits, x) {
                    violation(c, above_text(number_text(n), max->0.debug@))
                } else {
                    None
                }
            },
            None => None,
        },
        FieldConstraint::StringLength { min, max } => match value {
            JsonValue::String(s) => {
                let len = s@.len();
                if min is Some && len < min->0 {
                    violation(
                        c,
                        "string length "@ + below_text(int_text(len as int), int_text(min->0 as int)),
                    )
                } else if max is Some && len > max->0 {
                    violation(
                        c,
                        "string length "@ + above_text(int_text(len as int), int_text(max->0 as int)),
                    )
                } else {
                    None
                }
            },
            _ => None,
        },
        FieldConstraint::ArrayLength { min, max } => match value {
            JsonValue::Array(a) => {
                let len = a@.len();
                if min is Some && len < min->0 {
                    violation(
                        c,
                        "array length "@ + below_text(int_text(len as int), int_text(min->0 as int)),
                    )
                } else if max is Some && len > max->0 {
                    violation(
                        c,
                        "array length "@ + above_text(int_text(len as int), int_text(max->0 as int)),
                    )
                } else {
                    None
                }
            },
            _ => None,
        },
        FieldConstraint::AllowedStrings { values } => match value {
            JsonValue::String(s) => if strings_contain(values@, s@) {
                None
            } else {
                violation(c, str_debug_text(s@) + " is not an allowed value"@)
            },
            _ => None,
        },
    }
}

fn below_message(number: String, bound: String) -> (r: String)
    ensures
        r@ == below_text(number@, bound@),
{
    let m = join(number, " is below minimum ");
    join(m, some_wrapped(bound.as_str()).as_str())
}

fn above_message(number: String, bound: String) -> (r: String)
    ensures
        r@ == above_text(number@, bound@),
{
    let m = join(number, " is above maximum ");
    join(m, some_wrapped(bound.as_str()).as_str())
}

fn violation_of(constraint: &FieldConstraint, message: String) -> (r: ComponentValidationIssueKind)
    ensures
        Some(r@) == violation(*constraint, message@),
{
    ComponentValidationIssueKind::ConstraintViolation { constraint: constraint.clone(), message }
}

fn string_in(values: &Vec<String>, s: &str) -> (r: bool)
    ensures
        r == strings_contain(values@, s@),
{
    let n = values.len();
    for i in 0..n
        invariant
            n == values@.len(),
            forall|j: int| 0 <= j < i ==> (#[trigger] values@[j])@ != s@,
    {
        if crate::text::str_eq(values[i].as_str(), s) {
            return true;
        }
    }
    false
}

/// Checks one constraint against a value.
pub fn validate_constraint(constraint: &FieldConstraint, value: &JsonValue) -> (r: Option<
    ComponentValidationIssueKind,
>)
    ensures
        match r {
            Some(k) => constraint_issue(*constraint, *value) == Some(k@),
            None => constraint_issue(*constraint, *value) is None,
        },
{
    match constraint {
        FieldConstraint::IntegerRange { min, max } => {
            let number = value.as_number()?.as_i64()?;
            if let Some(minimum) = min {
                if number < *minimum {
                    return Some(
                        violation_of(constraint, below_message(i64_text(number), i64_text(*minimum))),
                    );
                }
            }
            if let Some(maximum) = max {
                if number > *maximum {
                    return Some(
                        violation_of(constraint, above_message(i64_text(number), i64_text(*maximum))),
                    );
                }
            }
            None
        },
        FieldConstraint::UnsignedRange { min, max } => {
            let number = value.as_number()?.as_u64()?;
            if let Some(minimum) = min {
                if number < *minimum {
                    return Some(
                        violation_of(constraint, below_message(u64_text(number), u64_text(*minimum))),
                    );
                }
            }
            if let Some(maximum) = max {
                if number > *maximum {
                    return Some(
                        violation_of(constraint, above_message(u64_text(number), u64_text(*maximum))),
                    );
                }
            }
            None
        },
        FieldConstraint::DecimalRange { min, max } => {
            let n = value.as_number()?;
            let x = n.as_f64_bits();
            if let Some(minimum) = min {
                if lt_bits(x, minimum.bits) {
                    return Some(
                        violation_of(
                            constraint,
                            below_message(number_display(n), minimum.debug.clone()),
                        ),
                    );
                }
            }
            if let Some(maximum) = max {
                if lt_bits(maximum.bits, x) {
                    return Some(
                        violation_of(
                            constraint,
                            above_message(number_display(n), maximum.debug.clone()),
                        ),
                    );
                }
            }
            None
        },
        FieldConstraint::StringLength { min, max } => {
            let length = value.as_str()?.unicode_len();
            if let Some(minimum) = min {
                if length < *minimum {
                    let m = below_message(usize_text(length), usize_text(*minimum));
                    let m2 = join(String::from_str("string length "), m.as_str());
                    return Some(violation_of(constraint, m2));
                }
            }
            if let Some(maximum) = max {
                if length > *maximum {
                    let m = above_message(usize_text(length), usize_text(*maximum));
                    let m2 = join(String::from_str("string length "), m.as_str());
                    return Some(violation_of(constraint, m2));
                }
            }
            None
        },
        FieldConstraint::ArrayLength { min, max } => {
            let length = value.as_array()?.len();
            if let Some(minimum) = min {
                if length < *minimum {
                    let m = below_message(usize_text(length), usize_text(*minimum));
                    let m2 = join(String::from_str("array length "), m.as_str());
                    return Some(violation_of(constraint, m2));
                }
            }
            if let Some(maximum) = max {
                if length > *maximum {
                    let m = above_message(usize_text(length), usize_text(*maximum));
                    let m2 = join(String::from_str("array length "), m.as_str());
                    return Some(violation_of(constraint, m2));
                }
            }
            None
        },
        FieldConstraint::AllowedStrings { values } => {
            let string = value.as_str()?;
            if !string_in(values, string) {
                let m = join(str_debug(string), " is not an allowed value");
                return Some(violation_of(constraint, m));
            }
            None
        },
    }
}

proof fn lemma_array_issue_none(items: FieldType, a: Seq<JsonValue>, n: int)
    requires
        0 <= n <= a.len(),
    ensures
        (array_issue(items, a, n) is None) == forall|i: int| 0 <= i < n ==> type_issue(items, #[trigger] a[i]) is None,
    decreases n,
{
    if n > 0 {
        lemma_array_issue_none(items, a, n - 1);
    }
}

/// Which values each field type accepts: booleans, integers that fit,
/// any number for decimals, strings, objects; keys and display names that
/// obey their rules; identities that parse as a non-nil UUID; times as any
/// `i64`, durations as a non-negative `i64`, angles below one full turn,
/// the other quantities as any `u64`; arrays whose every item is accepted.
pub proof fn law_type_acceptance(expected: FieldType, value: JsonValue)
    ensures
        (type_issue(expected, value) is None) == match expected {
            FieldType::Bool => value is Bool,
            FieldType::Integer => number_of(value) matches Some(n) && n.spec_as_i64() is Some,
            FieldType::UnsignedInteger => number_of(value) matches Some(n) && n.spec_as_u64() is Some,
            FieldType::Decimal => value is Number,
            FieldType::String => value is String,
            FieldType::Object => value is Object,
            FieldType::Key => value matches JsonValue::String(t) && valid_key(t@),
            FieldType::DisplayName => value matches JsonValue::String(t) && display_name_check(t@) is Ok,
            FieldType::SimTime => number_of(value) matches Some(n) && n.spec_as_i64() is Some,
            FieldType::SimDuration => number_of(value) matches Some(n) && n.spec_as_i64() matches Some(x)
                && x >= 0,
            FieldType::Angle => number_of(value) matches Some(n) && n.spec_as_u64() matches Some(x) && x
                < 360_000,
            FieldType::EventSequence | FieldType::StateRevision | FieldType::Distance | FieldType::Speed
            | FieldType::RotationalSpeed => number_of(value) matches Some(n) && n.spec_as_u64() is Some,
            FieldType::Array { items } => value matches JsonValue::Array(a) && forall|i: int|
                0 <= i < a@.len() ==> type_issue(*items, #[trigger] a@[i]) is None,
            _ => value matches JsonValue::String(t) && uuid_parse_result(t@) matches Some(v) && v != 0,
        },
{
    if let FieldType::Array { items } = expected {
        if let JsonValue::Array(a) = value {
            lemma_array_issue_none(*items, a@, a@.len() as int);
        }
    }
    if let JsonValue::Number(n) = value {
        n.lemma_canonical_spec();
    }
}

/// `x` lies below `min` or above `max`, where a bound that is absent
/// does not bind.
pub open spec fn out_of_bounds(x: int, min: Option<int>, max: Option<int>) -> bool {
    (min matches Some(m) && x < m) || (max matches Some(m) && x > m)
}

/// Constraints bind as their names say: a range constraint is violated
/// exactly when a value of its kind lies outside the bounds given (decimals
/// by `f64` order, strings by their number of characters, arrays by their
/// length), an allowed-strings constraint exactly when a string is not one
/// of the values listed; values of another kind never violate a
/// constraint.
pub proof fn law_constraint_violations(c: FieldConstraint, value: JsonValue)
    ensures
        c matches FieldConstraint::IntegerRange { min, max } ==> ((constraint_issue(c, value) is Some) == (
        number_of(value) matches Some(n) && n.spec_as_i64() matches Some(x) && out_of_bounds(
            x as int,
            opt_i64(min),
            opt_i64(max),
        ))),
        c matches FieldConstraint::UnsignedRange { min, max } ==> ((constraint_issue(c, value) is Some) == (
        number_of(value) matches Some(n) && n.spec_as_u64() matches Some(x) && out_of_bounds(
            x as int,
            opt_u64(min),
            opt_u64(max),
        ))),
        c matches FieldConstraint::DecimalRange { min, max } ==> ((constraint_issue(c, value) is Some) == (
        number_of(value) matches Some(n) && ((min matches Some(d) && bits_lt(n.spec_as_f64_bits(), d.bits)) || (
        max matches Some(d) && bits_lt(d.bits, n.spec_as_f64_bits()))))),
        c matches FieldConstraint::StringLength { min, max } ==> ((constraint_issue(c, value) is Some) == (
        value matches JsonValue::String(t) && out_of_bounds(t@.len() as int, opt_usize(min), opt_usize(max)))),
        c matches FieldConstraint::ArrayLength { min, max } ==> ((constraint_issue(c, value) is Some) == (
        value matches JsonValue::Array(a) && out_of_bounds(a@.len() as int, opt_usize(min), opt_usize(max)))),
        c matches FieldConstraint::AllowedStrings { values } ==> ((constraint_issue(c, value) is Some) == (
        value matches JsonValue::String(t) && !exists|i: int|
            0 <= i < values@.len() && (#[trigger] values@[i])@ == t@)),
{
}

/// The issues of the first `n` constraints, in order.
pub open spec fn constraint_issues(cs: Seq<FieldConstraint>, value: JsonValue, n: int) -> Seq<
    IssueKindView,
>
    decreases n,
{
    if n <= 0 || n > cs.len() {
        Seq::empty()
    } else {
        constraint_issues(cs, value, n - 1) + match constraint_issue(cs[n - 1], value) {
            Some(k) => seq![k],
            None => Seq::empty(),
        }
    }
}

/// A value of a present field: a base-type issue alone, or else the
/// constraint violations in the order the constraints are declared.
pub open spec fn field_value_issues(field: FieldSchema, value: JsonValue) -> Seq<IssueKindView> {
    match type_issue(field.field_type, value) {
        Some(k) => seq![k],
        None => constraint_issues(field.constraints@, value, field.constraints@.len() as int),
    }
}

pub open spec fn kind_views(v: Seq<ComponentValidationIssueKind>) -> Seq<IssueKindView> {
    v.map_values(|k: ComponentValidationIssueKind| k@)
}

pub fn validate_field_value(field: &FieldSchema, value: &JsonValue) -> (r: Vec<
    ComponentValidationIssueKind,
>)
    ensures
        kind_views(r@) == field_value_issues(*field, *value),
{
    let mut issues: Vec<ComponentValidationIssueKind> = Vec::new();
    if let Err(issue) = validate_type(&field.field_type, value) {
        issues.push(issue);
        assert(kind_views(issues@) =~= seq![issue@]);
        return issues;
    }
    let n = field.constraints.len();
    assert(kind_views(issues@) =~= constraint_issues(field.constraints@, *value, 0));
    for i in 0..n
        invariant
            n == field.constraints@.len(),
            kind_views(issues@) == constraint_issues(field.constraints@, *value, i as int),
    {
        let ghost before = issues@;
        if let Some(issue) = validate_constraint(&field.constraints[i], value) {
            issues.push(issue);
            assert(kind_views(issues@) =~= kind_views(before) + seq![issue@]);
        } else {
            assert(kind_views(issues@) =~= kind_views(before) + Seq::<IssueKindView>::empty());
        }
    }
    issues
}

} // verus!
