//! Versioned component schemas: their definition rules and the validation
//! of payloads against them.
use crate::schema::constraint::{FieldConstraint, FieldConstraintView, constraint_debug_text};
use crate::text::{join, str_debug, str_debug_text};
use crate::schema::context::SchemaContext;
use crate::schema::decimal::{bits_lt, is_finite_bits, lt_bits, Decimal};
use crate::schema::field::{FieldRequirement, FieldSchema, FieldType};
use crate::schema::json::{JsonObject, JsonValue, JsonValueKind, kind_of};
use crate::schema::persistence::spec_allows;
use crate::ordered_map::OrderedKey;
use crate::schema::validation::{ComponentValidationIssue, ComponentValidationIssueKind, ComponentValidationIssueView, ComponentValidationReport, IssueKindView, field_type_name, field_type_text, field_value_issues, kind_views, validate_field_value};
use crate::types::key::{Key, key_check, byte_len};
use vstd::prelude::*;
use vstd::string::*;

verus! {

/// Stable reference to one exact component schema version.
#[derive(Debug)]
pub struct ComponentSchemaRef {
    pub key: Key,
    pub version: u32,
}

impl View for ComponentSchemaRef {
    type V = (Seq<char>, u32);

    open spec fn view(&self) -> (Seq<char>, u32) {
        (self.key@, self.version)
    }
}

impl Clone for ComponentSchemaRef {
    fn clone(&self) -> (r: Self)
        ensures
            r == *self,
    {
        ComponentSchemaRef { key: self.key.clone(), version: self.version }
    }
}

impl ComponentSchemaRef {
    /// Versions start at 1.
    pub fn new(key: Key, version: u32) -> (r: Result<Self, SchemaDefinitionError>)
        ensures
            match r {
                Ok(s) => version != 0 && s.key == key && s.version == version,
                Err(e) => version == 0 && e is ZeroVersion,
            },
    {
        if version == 0 {
            return Err(SchemaDefinitionError::ZeroVersion);
        }
        Ok(ComponentSchemaRef { key, version })
    }
}

#[derive(Debug)]
pub enum SchemaDefinitionError {
    ZeroVersion,
    DuplicateField(Key),
    IncompatibleConstraint { field: Key, field_type: FieldType, constraint: FieldConstraint },
    InvalidConstraintBounds { field: Key, constraint: FieldConstraint },
    NonFiniteDecimalConstraint { field: Key },
    EmptyAllowedStrings { field: Key },
    InvalidAllowedString { field: Key, value: String },
}

/// A schema definition error as seen by contracts.
pub enum SchemaDefinitionErrorView {
    ZeroVersion,
    DuplicateField(Seq<char>),
    IncompatibleConstraint {
        field: Seq<char>,
        field_type: FieldType,
        constraint: FieldConstraintView,
    },
    InvalidConstraintBounds { field: Seq<char>, constraint: FieldConstraintView },
    NonFiniteDecimalConstraint { field: Seq<char> },
    EmptyAllowedStrings { field: Seq<char> },
    InvalidAllowedString { field: Seq<char>, value: Seq<char> },
}

impl View for SchemaDefinitionError {
    type V = SchemaDefinitionErrorView;

    open spec fn view(&self) -> SchemaDefinitionErrorView {
        match *self {
            SchemaDefinitionError::ZeroVersion => SchemaDefinitionErrorView::ZeroVersion,
            SchemaDefinitionError::DuplicateField(k) => SchemaDefinitionErrorView::DuplicateField(k@),
            SchemaDefinitionError::IncompatibleConstraint { field, field_type, constraint } =>
                SchemaDefinitionErrorView::IncompatibleConstraint {
                field: field@,
                field_type,
                constraint: constraint@,
            },
            SchemaDefinitionError::InvalidConstraintBounds { field, constraint } =>
                SchemaDefinitionErrorView::InvalidConstraintBounds {
                field: field@,
                constraint: constraint@,
            },
            SchemaDefinitionError::NonFiniteDecimalConstraint { field } =>
                SchemaDefinitionErrorView::NonFiniteDecimalConstraint { field: field@ },
            SchemaDefinitionError::EmptyAllowedStrings { field } =>
                SchemaDefinitionErrorView::EmptyAllowedStrings { field: field@ },
            SchemaDefinitionError::InvalidAllowedString { field, value } =>
                SchemaDefinitionErrorView::InvalidAllowedString { field: field@, value: value@ },
        }
    }
}

/// The text of a schema definition error.
pub open spec fn schema_error_text(e: SchemaDefinitionError) -> Seq<char> {
    match e {
        SchemaDefinitionError::ZeroVersion => "component schema version must be at least 1"@,
        SchemaDefinitionError::DuplicateField(field) => "duplicate field in component schema: "@ + field@,
        SchemaDefinitionError::IncompatibleConstraint { field, field_type, constraint } => "constraint "@
            + constraint_debug_text(constraint) + " is incompatible with field "@ + field@ + " type "@
            + field_type_text(field_type),
        SchemaDefinitionError::InvalidConstraintBounds { field, constraint } =>
            "constraint bounds are invalid for field "@ + field@ + ": "@ + constraint_debug_text(constraint),
        SchemaDefinitionError::NonFiniteDecimalConstraint { field } => "decimal constraint for field "@
            + field@ + " contains a non-finite bound"@,
        SchemaDefinitionError::EmptyAllowedStrings { field } => "allowed-string constraint for field "@
            + field@ + " is empty"@,
        SchemaDefinitionError::InvalidAllowedString { field, value } => "allowed value "@
            + str_debug_text(value@) + " is invalid for Key field "@ + field@,
    }
}

impl SchemaDefinitionError {
    pub fn message(&self) -> (r: String)
        ensures
            r@ == schema_error_text(*self),
    {
        match self {
            SchemaDefinitionError::ZeroVersion => String::from_str("component schema version must be at least 1"),
            SchemaDefinitionError::DuplicateField(field) => join(
                String::from_str("duplicate field in component schema: "),
                field.as_str(),
            ),
            SchemaDefinitionError::IncompatibleConstraint { field, field_type, constraint } => {
                let out = join(String::from_str("constraint "), constraint.debug_text().as_str());
                let out = join(out, " is incompatible with field ");
                let out = join(out, field.as_str());
                let out = join(out, " type ");
                join(out, field_type_name(field_type).as_str())
            },
            SchemaDefinitionError::InvalidConstraintBounds { field, constraint } => {
                let out = join(String::from_str("constraint bounds are invalid for field "), field.as_str());
                let out = join(out, ": ");
                join(out, constraint.debug_text().as_str())
            },
            SchemaDefinitionError::NonFiniteDecimalConstraint { field } => {
                let out = join(String::from_str("decimal constraint for field "), field.as_str());
                join(out, " contains a non-finite bound")
            },
            SchemaDefinitionError::EmptyAllowedStrings { field } => {
                let out = join(String::from_str("allowed-string constraint for field "), field.as_str());
                join(out, " is empty")
            },
            SchemaDefinitionError::InvalidAllowedString { field, value } => {
                let out = join(String::from_str("allowed value "), str_debug(value.as_str()).as_str());
                let out = join(out, " is invalid for Key field ");
                join(out, field.as_str())
            },
        }
    }
}

#[derive(Debug)]
pub struct ComponentSchema {
    pub key: Key,
    pub version: u32,
    pub owner: Key,
    pub fields: Vec<FieldSchema>,
    pub allow_unknown_fields: bool,
}

// ----------------------------------------------------------------------
// Definition rules
// ----------------------------------------------------------------------
/// Whether a constraint can apply to a field of type `t`.
pub open spec fn constraint_fits(c: FieldConstraint, t: FieldType) -> bool {
    match c {
        FieldConstraint::IntegerRange { .. } => t is Integer,
        FieldConstraint::UnsignedRange { .. } => t is UnsignedInteger,
        FieldConstraint::DecimalRange { .. } => t is Decimal,
        FieldConstraint::StringLength { .. } | FieldConstraint::AllowedStrings { .. } => t is String
            || t is DisplayName || t is Key,
        FieldConstraint::ArrayLength { .. } => t is Array,
    }
}

/// The first of the first `n` allowed values that is not a valid key.
pub open spec fn first_invalid_key(values: Seq<String>, n: int) -> Option<Seq<char>>
    decreases n,
{
    if n <= 0 || n > values.len() {
        None
    } else {
        match first_invalid_key(values, n - 1) {
            Some(v) => Some(v),
            None => if key_check(values[n - 1]@, byte_len(values[n - 1]@)) is Err {
                Some(values[n - 1]@)
            } else {
                None
            },
        }
    }
}

/// What is wrong with one constraint of a field, if anything: a constraint
/// of the wrong kind for the field, reversed bounds, non-finite decimal
/// bounds, an empty list of allowed strings, or an allowed string that is
/// not a valid key for a key field.
pub open spec fn constraint_definition_error(field: FieldSchema, c: FieldConstraint) -> Option<
    SchemaDefinitionErrorView,
> {
    let name = field.key@;
    if !constraint_fits(c, field.field_type) {
        Some(
            SchemaDefinitionErrorView::IncompatibleConstraint {
                field: name,
                field_type: field.field_type,
                constraint: c@,
            },
        )
    } else {
        let bounds = Some(
            SchemaDefinitionErrorView::InvalidConstraintBounds { field: name, constraint: c@ },
        );
        match c {
            FieldConstraint::IntegerRange { min, max } => if min is Some && max is Some && min->0
                > max->0 {
                bounds
            } else {
                None
            },
            FieldConstraint::UnsignedRange { min, max } => if min is Some && max is Some && min->0
                > max->0 {
                bounds
            } else {
                None
            },
            FieldConstraint::StringLength { min, max } => if min is Some && max is Some && min->0
                > max->0 {
                bounds
            } else {
                None
            },
            FieldConstraint::ArrayLength { min, max } => if min is Some && max is Some && min->0
                > max->0 {
                bounds
            } else {
                None
            },
            FieldConstraint::DecimalRange { min, max } => if (min is Some && !is_finite_bits(
                min->0.bits,
            )) || (max is Some && !is_finite_bits(max->0.bits)) {
                Some(SchemaDefinitionErrorView::NonFiniteDecimalConstraint { field: name })
            } else if min is Some && max is Some && bits_lt(max->0.bits, min->0.bits) {
                bounds
            } else {
                None
            },
            FieldConstraint::AllowedStrings { values } => if values@.len() == 0 {
                Some(SchemaDefinitionErrorView::EmptyAllowedStrings { field: name })
            } else if field.field_type is Key {
                match first_invalid_key(values@, values@.len() as int) {
                    Some(v) => Some(
                        SchemaDefinitionErrorView::InvalidAllowedString { field: name, value: v },
                    ),
                    None => None,
                }
            } else {
                None
            },
        }
    }
}

/// The first error among the first `n` constraints of a field.
pub open spec fn first_constraint_error(field: FieldSchema, n: int) -> Option<
    SchemaDefinitionErrorView,
>
    decreases n,
{
    if n <= 0 || n > field.constraints@.len() {
        None
    } else {
        match first_constraint_error(field, n - 1) {
            Some(e) => Some(e),
            None => constraint_definition_error(field, field.constraints@[n - 1]),
        }
    }
}

/// Field `i` repeats the key of an earlier field.
pub open spec fn repeats_earlier_key(fields: Seq<FieldSchema>, i: int) -> bool {
    exists|j: int| 0 <= j < i && (#[trigger] fields[j]).key@ == fields[i].key@
}

/// The first error among the first `n` fields: a repeated key, or else the
/// first error of the field's constraints.
pub open spec fn first_field_error(fields: Seq<FieldSchema>, n: int) -> Option<
    SchemaDefinitionErrorView,
>
    decreases n,
{
    if n <= 0 || n > fields.len() {
        None
    } else {
        match first_field_error(fields, n - 1) {
            Some(e) => Some(e),
            None => if repeats_earlier_key(fields, n - 1) {
                Some(SchemaDefinitionErrorView::DuplicateField(fields[n - 1].key@))
            } else {
                first_constraint_error(fields[n - 1], fields[n - 1].constraints@.len() as int)
            },
        }
    }
}

/// What is wrong with a schema of this version and these fields, if anything.
pub open spec fn schema_definition_error(version: u32, fields: Seq<FieldSchema>) -> Option<
    SchemaDefinitionErrorView,
> {
    if version == 0 {
        Some(SchemaDefinitionErrorView::ZeroVersion)
    } else {
        first_field_error(fields, fields.len() as int)
    }
}

fn invalid_bounds(field: &FieldSchema, constraint: &FieldConstraint) -> (r: Result<
    (),
    SchemaDefinitionError,
>)
    ensures
        r is Err,
        r->Err_0@ == (SchemaDefinitionErrorView::InvalidConstraintBounds {
            field: field.key@,
            constraint: constraint@,
        }),
{
    Err(
        SchemaDefinitionError::InvalidConstraintBounds {
            field: field.key.clone(),
            constraint: constraint.clone(),
        },
    )
}

/// Both bounds are present and the lower exceeds the upper.
pub fn bounds_reversed(min: Option<u64>, max: Option<u64>) -> (r: bool)
    ensures
        r == (min is Some && max is Some && min->0 > max->0),
{
    match (min, max) {
        (Some(minimum), Some(maximum)) => minimum > maximum,
        _ => false,
    }
}

fn bounds_reversed_i64(min: Option<i64>, max: Option<i64>) -> (r: bool)
    ensures
        r == (min is Some && max is Some && min->0 > max->0),
{
    match (min, max) {
        (Some(minimum), Some(maximum)) => minimum > maximum,
        _ => false,
    }
}

fn bounds_reversed_usize(min: Option<usize>, max: Option<usize>) -> (r: bool)
    ensures
        r == (min is Some && max is Some && min->0 > max->0),
{
    match (min, max) {
        (Some(minimum), Some(maximum)) => minimum > maximum,
        _ => false,
    }
}

fn validate_constraint_definition(field: &FieldSchema, constraint: &FieldConstraint) -> (r: Result<
    (),
    SchemaDefinitionError,
>)
    ensures
        match r {
            Ok(_) => constraint_definition_error(*field, *constraint) is None,
            Err(e) => constraint_definition_error(*field, *constraint) == Some(e@),
        },
{
    let compatible = match constraint {
        FieldConstraint::IntegerRange { .. } => matches!(field.field_type, FieldType::Integer),
        FieldConstraint::UnsignedRange { .. } => matches!(field.field_type, FieldType::UnsignedInteger),
        FieldConstraint::DecimalRange { .. } => matches!(field.field_type, FieldType::Decimal),
        FieldConstraint::StringLength { .. } | FieldConstraint::AllowedStrings { .. } => matches!(
            &field.field_type,
            FieldType::String | FieldType::DisplayName | FieldType::Key
        ),
        FieldConstraint::ArrayLength { .. } => matches!(&field.field_type, FieldType::Array { .. }),
    };
    if !compatible {
        return Err(
            SchemaDefinitionError::IncompatibleConstraint {
                field: field.key.clone(),
                field_type: field.field_type.clone(),
                constraint: constraint.clone(),
            },
        );
    }
    match constraint {
        FieldConstraint::IntegerRange { min, max } => {
            if bounds_reversed_i64(*min, *max) {
                return invalid_bounds(field, constraint);
            }
        },
        FieldConstraint::UnsignedRange { min, max } => {
            if bounds_reversed(*min, *max) {
                return invalid_bounds(field, constraint);
            }
        },
        FieldConstraint::DecimalRange { min, max } => {
            let min_bad = match min {
                Some(d) => !d.is_finite(),
                None => false,
            };
            let max_bad = match max {
                Some(d) => !d.is_finite(),
                None => false,
            };
            if min_bad || max_bad {
                return Err(
                    SchemaDefinitionError::NonFiniteDecimalConstraint { field: field.key.clone() },
                );
            }
            let reversed = match (min, max) {
                (Some(minimum), Some(maximum)) => lt_bits(maximum.bits, minimum.bits),
                _ => false,
            };
            if reversed {
                return invalid_bounds(field, constraint);
            }
        },
        FieldConstraint::StringLength { min, max } | FieldConstraint::ArrayLength { min, max } => {
            if bounds_reversed_usize(*min, *max) {
                return invalid_bounds(field, constraint);
            }
        },
        FieldConstraint::AllowedStrings { values } => {
            if values.len() == 0 {
                return Err(SchemaDefinitionError::EmptyAllowedStrings { field: field.key.clone() });
            }
            if matches!(&field.field_type, FieldType::Key) {
                let n = values.len();
                #[verifier::loop_isolation(false)]
                for i in 0..n
                    invariant
                        n == values@.len(),
                        first_invalid_key(values@, i as int) is None,
                {
                    if Key::new(values[i].as_str()).is_err() {
                        assert(first_invalid_key(values@, i + 1) == Some(values@[i as int]@));
                        proof {
                            lemma_first_invalid_key_stable(values@, i + 1, n as int);
                        }
                        return Err(
                            SchemaDefinitionError::InvalidAllowedString {
                                field: field.key.clone(),
                                value: values[i].clone(),
                            },
                        );
                    }
                }
            }
        },
    }
    Ok(())
}

proof fn lemma_first_invalid_key_stable(values: Seq<String>, m: int, n: int)
    requires
        0 < m <= n <= values.len(),
        first_invalid_key(values, m) is Some,
    ensures
        first_invalid_key(values, n) == first_invalid_key(values, m),
    decreases n - m,
{
    if n > m {
        lemma_first_invalid_key_stable(values, m, n - 1);
    }
}

fn validate_field_constraints(field: &FieldSchema) -> (r: Result<(), SchemaDefinitionError>)
    ensures
        match r {
            Ok(_) => first_constraint_error(*field, field.constraints@.len() as int) is None,
            Err(e) => first_constraint_error(*field, field.constraints@.len() as int) == Some(e@),
        },
{
    let n = field.constraints.len();
    for i in 0..n
        invariant
            n == field.constraints@.len(),
            first_constraint_error(*field, i as int) is None,
    {
        match validate_constraint_definition(field, &field.constraints[i]) {
            Err(e) => {
                proof {
                    lemma_first_constraint_error_stable(*field, i + 1, n as int);
                }
                return Err(e);
            },
            Ok(_) => {},
        }
    }
    Ok(())
}

proof fn lemma_first_constraint_error_stable(field: FieldSchema, m: int, n: int)
    requires
        0 < m <= n <= field.constraints@.len(),
        first_constraint_error(field, m) is Some,
    ensures
        first_constraint_error(field, n) == first_constraint_error(field, m),
    decreases n - m,
{
    if n > m {
        lemma_first_constraint_error_stable(field, m, n - 1);
    }
}

proof fn lemma_first_field_error_stable(fields: Seq<FieldSchema>, m: int, n: int)
    requires
        0 < m <= n <= fields.len(),
        first_field_error(fields, m) is Some,
    ensures
        first_field_error(fields, n) == first_field_error(fields, m),
    decreases n - m,
{
    if n > m {
        lemma_first_field_error_stable(fields, m, n - 1);
    }
}

/// Checks the definition rules of a version and a list of fields.
/// Checks the definition rules on a version and a list of fields.
pub fn validate_fields_definition(version: u32, fields: &Vec<FieldSchema>) -> (r: Result<
    (),
    SchemaDefinitionError,
>)
    ensures
        match r {
            Ok(_) => schema_definition_error(version, fields@) is None,
            Err(e) => schema_definition_error(version, fields@) == Some(e@),
        },
{
    if version == 0 {
        return Err(SchemaDefinitionError::ZeroVersion);
    }
    let n = fields.len();
    for i in 0..n
        invariant
            n == fields@.len(),
            version != 0,
            first_field_error(fields@, i as int) is None,
    {
        let field = &fields[i];
        let mut j: usize = 0;
        while j < i
            invariant
                j <= i < n,
                n == fields@.len(),
                *field == fields@[i as int],
                version != 0,
                first_field_error(fields@, i as int) is None,
                forall|k: int| 0 <= k < j ==> (#[trigger] fields@[k]).key@ != fields@[i as int].key@,
            decreases i - j,
        {
            if fields[j].key.same_key(&field.key) {
                assert(fields@[j as int].key@ == fields@[i as int].key@);
                assert(repeats_earlier_key(fields@, i as int));
                proof {
                    lemma_first_field_error_stable(fields@, i + 1, n as int);
                }
                return Err(SchemaDefinitionError::DuplicateField(field.key.clone()));
            }
            j = j + 1;
        }
        assert(!repeats_earlier_key(fields@, i as int));
        match validate_field_constraints(field) {
            Err(e) => {
                proof {
                    lemma_first_field_error_stable(fields@, i + 1, n as int);
                }
                return Err(e);
            },
            Ok(_) => {},
        }
    }
    Ok(())
}

// ----------------------------------------------------------------------
// Payloads
// ----------------------------------------------------------------------
pub open spec fn issue_at(field: Option<Seq<char>>, kind: IssueKindView) -> ComponentValidationIssueView {
    ComponentValidationIssueView { field, kind }
}

/// The issues that one declared field raises against an object payload:
/// a missing required field (when the field belongs in this context), then
/// either a persistence mismatch (a present field that does not belong) or
/// the issues of its value.
pub open spec fn field_issues(field: FieldSchema, object: JsonObject, context: SchemaContext) -> Seq<
    ComponentValidationIssueView,
> {
    let name = Some(field.key@);
    let present = object@.contains_key(field.key@);
    let allowed = spec_allows(field.persistence, context);
    let missing = if allowed && field.requirement == FieldRequirement::Required && !present {
        seq![issue_at(name, IssueKindView::MissingRequiredField)]
    } else {
        Seq::empty()
    };
    let rest = if !present {
        Seq::empty()
    } else if !allowed {
        seq![
            issue_at(
                name,
                IssueKindView::PersistenceMismatch { field_persistence: field.persistence, context },
            ),
        ]
    } else {
        field_value_issues(field, object@[field.key@]).map_values(
            |k: IssueKindView| issue_at(name, k),
        )
    };
    missing + rest
}

/// The issues of the first `n` declared fields, in declaration order.
pub open spec fn fields_issues(
    fields: Seq<FieldSchema>,
    object: JsonObject,
    context: SchemaContext,
    n: int,
) -> Seq<ComponentValidationIssueView>
    decreases n,
{
    if n <= 0 || n > fields.len() {
        Seq::empty()
    } else {
        fields_issues(fields, object, context, n - 1) + field_issues(fields[n - 1], object, context)
    }
}

/// Some declared field has key `k`.
pub open spec fn declares_field(fields: Seq<FieldSchema>, k: Seq<char>) -> bool {
    exists|i: int| 0 <= i < fields.len() && (#[trigger] fields[i]).key@ == k
}

/// An unknown-field issue for each of the first `n` member keys that no
/// field declares, in key order.
pub open spec fn unknown_issues(fields: Seq<FieldSchema>, keys: Seq<Seq<char>>, n: int) -> Seq<
    ComponentValidationIssueView,
>
    decreases n,
{
    if n <= 0 || n > keys.len() {
        Seq::empty()
    } else {
        unknown_issues(fields, keys, n - 1) + if declares_field(fields, keys[n - 1]) {
            Seq::empty()
        } else {
            seq![issue_at(Some(keys[n - 1]), IssueKindView::UnknownField)]
        }
    }
}

/// All issues of a payload: a payload that is not an object is reported
/// alone; otherwise the issues of each declared field, then (unless unknown
/// fields are allowed) one for each undeclared member.
pub open spec fn payload_issues(
    schema: ComponentSchema,
    payload: JsonValue,
    context: SchemaContext,
) -> Seq<ComponentValidationIssueView> {
    fields_payload_issues(schema.fields@, schema.allow_unknown_fields, payload, context)
}

/// The issues of `payload` under the declared `fields`, unknown members
/// being refused unless `allow_unknown`.
pub open spec fn fields_payload_issues(
    fields: Seq<FieldSchema>,
    allow_unknown: bool,
    payload: JsonValue,
    context: SchemaContext,
) -> Seq<ComponentValidationIssueView> {
    match payload {
        JsonValue::Object(object) => fields_issues(
            fields,
            object,
            context,
            fields.len() as int,
        ) + if allow_unknown {
            Seq::empty()
        } else {
            unknown_issues(fields, object.keys(), object.keys().len() as int)
        },
        _ => seq![
            issue_at(None, IssueKindView::PayloadMustBeObject { actual: kind_of(payload) }),
        ],
    }
}

/// What a payload must satisfy for one declared field in a context: when
/// the field belongs in the context and is required it is present; when it
/// is present it belongs in the context and its value has no issue.
pub open spec fn field_satisfied(field: FieldSchema, object: JsonObject, context: SchemaContext) -> bool {
    let present = object@.contains_key(field.key@);
    let allowed = spec_allows(field.persistence, context);
    &&& (allowed && field.requirement == FieldRequirement::Required ==> present)
    &&& (present ==> allowed && field_value_issues(field, object@[field.key@]).len() == 0)
}

proof fn lemma_field_issues_empty(field: FieldSchema, object: JsonObject, context: SchemaContext)
    ensures
        (field_issues(field, object, context).len() == 0) == field_satisfied(field, object, context),
{
}

proof fn lemma_fields_issues_empty(fields: Seq<FieldSchema>, object: JsonObject, context: SchemaContext, n: int)
    requires
        0 <= n <= fields.len(),
    ensures
        (fields_issues(fields, object, context, n).len() == 0) == forall|i: int|
            0 <= i < n ==> field_satisfied(#[trigger] fields[i], object, context),
    decreases n,
{
    if n > 0 {
        lemma_fields_issues_empty(fields, object, context, n - 1);
        lemma_field_issues_empty(fields[n - 1], object, context);
    }
}

proof fn lemma_unknown_issues_empty(fields: Seq<FieldSchema>, keys: Seq<Seq<char>>, n: int)
    requires
        0 <= n <= keys.len(),
    ensures
        (unknown_issues(fields, keys, n).len() == 0) == forall|i: int|
            0 <= i < n ==> declares_field(fields, #[trigger] keys[i]),
    decreases n,
{
    if n > 0 {
        lemma_unknown_issues_empty(fields, keys, n - 1);
    }
}

/// A payload passes validation exactly when it is an object in which every
/// declared field meets its requirement, belongs in the context and has a
/// valid value, and which, unless unknown members are allowed, has no
/// member that no field declares.
pub proof fn law_valid_payload(schema: ComponentSchema, payload: JsonValue, context: SchemaContext)
    ensures
        (payload_issues(schema, payload, context).len() == 0) == (payload matches JsonValue::Object(o) && {
            &&& forall|i: int|
                0 <= i < schema.fields@.len() ==> field_satisfied(#[trigger] schema.fields@[i], o, context)
            &&& !schema.allow_unknown_fields ==> forall|k: Seq<char>|
                #[trigger] o@.contains_key(k) ==> declares_field(schema.fields@, k)
        }),
{
    if let JsonValue::Object(o) = payload {
        lemma_fields_issues_empty(schema.fields@, o, context, schema.fields@.len() as int);
        lemma_unknown_issues_empty(schema.fields@, o.keys(), o.keys().len() as int);
        o.lemma_view();
        assert forall|k: Seq<char>| o@.contains_key(k) <==> o.keys().contains(k) by {
            assert(o.keys().to_set().contains(k) == o.keys().contains(k));
        }
        if !schema.allow_unknown_fields {
            assert((forall|i: int| 0 <= i < o.keys().len() ==> declares_field(schema.fields@, #[trigger] o.keys()[i]))
                == (forall|k: Seq<char>| #[trigger] o@.contains_key(k) ==> declares_field(schema.fields@, k))) by {
                if forall|i: int| 0 <= i < o.keys().len() ==> declares_field(schema.fields@, #[trigger] o.keys()[i]) {
                    assert forall|k: Seq<char>| #[trigger] o@.contains_key(k) implies declares_field(schema.fields@, k) by {
                        let i = choose|i: int| 0 <= i < o.keys().len() && o.keys()[i] == k;
                    }
                }
                if forall|k: Seq<char>| #[trigger] o@.contains_key(k) ==> declares_field(schema.fields@, k) {
                    assert forall|i: int| 0 <= i < o.keys().len() implies declares_field(schema.fields@, #[trigger] o.keys()[i]) by {
                        assert(o.keys().contains(o.keys()[i]));
                    }
                }
            }
        }
    }
}

/// The first field whose key is `k`.
pub open spec fn first_field_with_key(fields: Seq<FieldSchema>, k: Seq<char>, n: int) -> Option<int>
    decreases n,
{
    if n <= 0 || n > fields.len() {
        None
    } else {
        match first_field_with_key(fields, k, n - 1) {
            Some(i) => Some(i),
            None => if fields[n - 1].key@ == k {
                Some(n - 1)
            } else {
                None
            },
        }
    }
}

proof fn lemma_first_field_with_key(fields: Seq<FieldSchema>, k: Seq<char>, n: int)
    requires
        0 <= n <= fields.len(),
    ensures
        first_field_with_key(fields, k, n) is None <==> forall|j: int|
            0 <= j < n ==> (#[trigger] fields[j]).key@ != k,
        first_field_with_key(fields, k, n) matches Some(i) ==> 0 <= i < n && fields[i].key@ == k,
    decreases n,
{
    if n > 0 {
        lemma_first_field_with_key(fields, k, n - 1);
    }
}

impl ComponentSchema {
    /// A schema that obeys the definition rules; unknown fields are refused.
    pub fn new(key: Key, version: u32, owner: Key, fields: Vec<FieldSchema>) -> (r: Result<
        Self,
        SchemaDefinitionError,
    >)
        ensures
            match r {
                Ok(s) => schema_definition_error(version, fields@) is None && s.key == key
                    && s.version == version && s.owner == owner && s.fields == fields
                    && !s.allow_unknown_fields,
                Err(e) => schema_definition_error(version, fields@) == Some(e@),
            },
    {
        match validate_fields_definition(version, &fields) {
            Err(e) => Err(e),
            Ok(_) => Ok(ComponentSchema { key, version, owner, fields, allow_unknown_fields: false }),
        }
    }

    pub fn schema_ref(&self) -> (r: ComponentSchemaRef)
        ensures
            r.key == self.key,
            r.version == self.version,
    {
        ComponentSchemaRef { key: self.key.clone(), version: self.version }
    }

    pub fn allow_unknown_fields(self, allow: bool) -> (r: Self)
        ensures
            r.key == self.key,
            r.version == self.version,
            r.owner == self.owner,
            r.fields == self.fields,
            r.allow_unknown_fields == allow,
    {
        let mut s = self;
        s.allow_unknown_fields = allow;
        s
    }

    /// The first declared field with this key.
    pub fn field(&self, key: &str) -> (r: Option<&FieldSchema>)
        ensures
            match first_field_with_key(self.fields@, key@, self.fields@.len() as int) {
                Some(i) => r == Some(&self.fields@[i]),
                None => r is None,
            },
    {
        find_field(&self.fields, key)
    }

    /// Checks the definition rules: a version of at least 1, no repeated
    /// field key, and constraints that fit their fields.
    pub fn validate_definition(&self) -> (r: Result<(), SchemaDefinitionError>)
        ensures
            match r {
                Ok(_) => schema_definition_error(self.version, self.fields@) is None,
                Err(e) => schema_definition_error(self.version, self.fields@) == Some(e@),
            },
    {
        validate_fields_definition(self.version, &self.fields)
    }

    /// Validates a payload in a context and reports every issue found.
    pub fn validate_payload(&self, payload: &JsonValue, context: SchemaContext) -> (r:
        ComponentValidationReport)
        ensures
            r@ == payload_issues(*self, *payload, context),
    {
        validate_fields_payload(&self.fields, self.allow_unknown_fields, payload, context)
    }
}

/// Validates a payload against declared fields in a context and reports
/// every issue found.
pub fn validate_fields_payload(
fields: &Vec<FieldSchema>,
allow_unknown: bool,
payload: &JsonValue,
context: SchemaContext,
) -> (r: ComponentValidationReport)
ensures
    r@ == fields_payload_issues(fields@, allow_unknown, *payload, context),
{
    let mut report = ComponentValidationReport::default();
    let object = match payload.as_object() {
        Some(o) => o,
        None => {
            report.push(
                ComponentValidationIssue {
                    field: None,
                    kind: ComponentValidationIssueKind::PayloadMustBeObject {
                        actual: JsonValueKind::of(payload),
                    },
                },
            );
            assert(report@ =~= fields_payload_issues(fields@, allow_unknown, *payload, context));
            return report;
        },
    };
    let n = fields.len();
    for i in 0..n
        invariant
            n == fields@.len(),
            *payload == JsonValue::Object(*object),
            report@ == fields_issues(fields@, *object, context, i as int),
    {
        let field = &fields[i];
        let ghost before = report@;
        let probe = field.key.as_str().to_owned();
        let present = object.get(&probe);
        let allowed = field.persistence.allows(context);
        let ghost name = Some(field.key@);
        if allowed && field.is_required() && present.is_none() {
            report.push(
                ComponentValidationIssue {
                    field: Some(field.key.as_str().to_owned()),
                    kind: ComponentValidationIssueKind::MissingRequiredField,
                },
            );
        }
        let ghost after_missing = report@;
        if let Some(value) = present {
            if !allowed {
                report.push(
                    ComponentValidationIssue {
                        field: Some(field.key.as_str().to_owned()),
                        kind: ComponentValidationIssueKind::PersistenceMismatch {
                            field_persistence: field.persistence,
                            context,
                        },
                    },
                );
            } else {
                let mut kinds = validate_field_value(field, value);
                let ghost all = kind_views(kinds@);
                let m = kinds.len();
                let mut done: usize = 0;
                while kinds.len() > 0
                    invariant
                        done + kinds@.len() == m,
                        m == all.len(),
                        kind_views(kinds@) == all.subrange(done as int, m as int),
                        report@ == after_missing + all.subrange(0, done as int).map_values(
                            |x: IssueKindView| issue_at(name, x),
                        ),
                        name == Some(field.key@),
                    decreases kinds@.len(),
                {
                    let ghost rest = kinds@;
                    assert(kind_views(rest)[0] == rest[0]@);
                    assert(kind_views(rest)[0] == all[done as int]);
                    let kind = kinds.remove(0);
                    assert(kind@ == all[done as int]);
                    assert(kind_views(kinds@) =~= kind_views(rest).subrange(1, rest.len() as int));
                    report.push(
                        ComponentValidationIssue {
                            field: Some(field.key.as_str().to_owned()),
                            kind,
                        },
                    );
                    assert(kind_views(kinds@) =~= all.subrange(done + 1, m as int));
                    done = done + 1;
                    assert(all.subrange(0, done as int) =~= all.subrange(0, done - 1).push(
                        all[done - 1],
                    ));
                    assert(report@ =~= after_missing + all.subrange(0, done as int).map_values(
                        |x: IssueKindView| issue_at(name, x),
                    ));
                }
                assert(all.subrange(0, m as int) =~= all);
            }
        }
        assert(report@ =~= before + field_issues(*field, *object, context));
    }
    let ghost declared = report@;
    if !allow_unknown {
        let m = object.len();
        for i in 0..m
            invariant
                m == object.keys().len(),
                report@ == declared + unknown_issues(fields@, object.keys(), i as int),
        {
            let key = object.key_at(i);
            let ghost before = report@;
            proof {
                lemma_first_field_with_key(fields@, key@, fields@.len() as int);
            }
            if find_field(fields, key.as_str()).is_none() {
                report.push(
                    ComponentValidationIssue {
                        field: Some(key.clone()),
                        kind: ComponentValidationIssueKind::UnknownField,
                    },
                );
            } else {
                assert(declares_field(fields@, key@));
            }
            assert(report@ =~= declared + unknown_issues(fields@, object.keys(), i + 1));
        }
        assert(report@ =~= fields_payload_issues(fields@, allow_unknown, *payload, context));
    } else {
        assert(report@ =~= fields_payload_issues(fields@, allow_unknown, *payload, context));
    }
    report
}

/// The first declared field with this key.
pub fn find_field<'a>(fields: &'a Vec<FieldSchema>, key: &str) -> (r: Option<&'a FieldSchema>)
    ensures
        match first_field_with_key(fields@, key@, fields@.len() as int) {
            Some(i) => r == Some(&fields@[i]),
            None => r is None,
        },
{
    let n = fields.len();
    for i in 0..n
        invariant
            n == fields@.len(),
            first_field_with_key(fields@, key@, i as int) is None,
    {
        if crate::text::str_eq(fields[i].key.as_str(), key) {
            proof {
                lemma_first_field_with_key_stable(fields@, key@, i + 1, n as int);
            }
            return Some(&fields[i]);
        }
    }
    None
}

proof fn lemma_first_field_with_key_stable(fields: Seq<FieldSchema>, k: Seq<char>, m: int, n: int)
    requires
        0 < m <= n <= fields.len(),
        first_field_with_key(fields, k, m) is Some,
    ensures
        first_field_with_key(fields, k, n) == first_field_with_key(fields, k, m),
    decreases n - m,
{
    if n > m {
        lemma_first_field_with_key_stable(fields, k, m, n - 1);
    }
}

} // verus!
