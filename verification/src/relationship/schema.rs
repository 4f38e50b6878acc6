//! Versioned structural contracts for relationship types.
use crate::entity::class::{EntityClass, class_text};
use crate::schema::constraint::{opt_int_text, opt_usize};
use crate::text::{int_text, join, some_wrapped, usize_text};
use crate::ordered_map::OrderedKey;
use crate::schema::component::{SchemaDefinitionError, SchemaDefinitionErrorView, fields_payload_issues, schema_definition_error, schema_error_text, validate_fields_definition, validate_fields_payload};
use crate::schema::context::SchemaContext;
use crate::schema::field::FieldSchema;
use crate::schema::json::JsonValue;
use crate::schema::validation::ComponentValidationReport;
use crate::types::key::Key;
use vstd::prelude::*;
use vstd::string::*;

verus! {

/// Stable reference to one exact relationship schema version.
#[derive(Debug)]
pub struct RelationshipSchemaRef {
    pub key: Key,
    pub version: u32,
}

impl View for RelationshipSchemaRef {
    type V = (Seq<char>, u32);

    open spec fn view(&self) -> (Seq<char>, u32) {
        (self.key@, self.version)
    }
}

impl Clone for RelationshipSchemaRef {
    fn clone(&self) -> (r: Self)
        ensures
            r == *self,
    {
        RelationshipSchemaRef { key: self.key.clone(), version: self.version }
    }
}

impl RelationshipSchemaRef {
    /// Versions start at 1.
    pub fn new(key: Key, version: u32) -> (r: Result<Self, RelationshipSchemaDefinitionError>)
        ensures
            match r {
                Ok(s) => version != 0 && s.key == key && s.version == version,
                Err(e) => version == 0 && e is ZeroVersion,
            },
    {
        if version == 0 {
            return Err(RelationshipSchemaDefinitionError::ZeroVersion);
        }
        Ok(RelationshipSchemaRef { key, version })
    }
}

/// Whether a participant role may, must, or must not name an internal slot.
#[derive(Clone, Copy, Debug, PartialEq, Eq, Structural, Hash)]
pub enum SlotRequirement {
    Forbidden,
    Optional,
    Required,
}

/// Structural rules for one participant role in a relationship.
#[derive(Debug)]
pub struct ParticipantRoleSchema {
    pub role: Key,
    pub minimum: usize,
    pub maximum: Option<usize>,
    pub allowed_classes: Vec<EntityClass>,
    pub slot_requirement: SlotRequirement,
    pub allowed_slots: Vec<Key>,
}

/// The text of each key.
pub open spec fn key_views(keys: Seq<Key>) -> Seq<Seq<char>> {
    keys.map_values(|k: Key| k@)
}

/// Whether a role admits an entity of class `class`: any class when none
/// is listed.
pub open spec fn allows_class_spec(role: ParticipantRoleSchema, class: EntityClass) -> bool {
    role.allowed_classes@.len() == 0 || role.allowed_classes@.contains(class)
}

/// Whether a role admits the slot `slot`: any slot when none is listed.
pub open spec fn allows_slot_spec(role: ParticipantRoleSchema, slot: Seq<char>) -> bool {
    role.allowed_slots@.len() == 0 || key_views(role.allowed_slots@).contains(slot)
}

impl Clone for ParticipantRoleSchema {
    fn clone(&self) -> (r: Self)
        ensures
            r.role == self.role,
            r.minimum == self.minimum,
            r.maximum == self.maximum,
            r.allowed_classes@ == self.allowed_classes@,
            r.slot_requirement == self.slot_requirement,
            r.allowed_slots@ == self.allowed_slots@,
    {
        let mut classes: Vec<EntityClass> = Vec::new();
        for i in 0..self.allowed_classes.len()
            invariant
                classes@ == self.allowed_classes@.subrange(0, i as int),
        {
            classes.push(self.allowed_classes[i]);
            assert(classes@ =~= self.allowed_classes@.subrange(0, i + 1));
        }
        let mut slots: Vec<Key> = Vec::new();
        for i in 0..self.allowed_slots.len()
            invariant
                slots@ == self.allowed_slots@.subrange(0, i as int),
        {
            slots.push(self.allowed_slots[i].clone());
            assert(slots@ =~= self.allowed_slots@.subrange(0, i + 1));
        }
        assert(classes@ =~= self.allowed_classes@);
        assert(slots@ =~= self.allowed_slots@);
        ParticipantRoleSchema {
            role: self.role.clone(),
            minimum: self.minimum,
            maximum: self.maximum,
            allowed_classes: classes,
            slot_requirement: self.slot_requirement,
            allowed_slots: slots,
        }
    }
}

impl ParticipantRoleSchema {
    pub fn new(
        role: Key,
        minimum: usize,
        maximum: Option<usize>,
        allowed_classes: Vec<EntityClass>,
        slot_requirement: SlotRequirement,
    ) -> (r: Self)
        ensures
            r.role == role,
            r.minimum == minimum,
            r.maximum == maximum,
            r.allowed_classes == allowed_classes,
            r.slot_requirement == slot_requirement,
            r.allowed_slots@ == Seq::<Key>::empty(),
    {
        ParticipantRoleSchema {
            role,
            minimum,
            maximum,
            allowed_classes,
            slot_requirement,
            allowed_slots: Vec::new(),
        }
    }

    pub fn with_allowed_slots(self, allowed_slots: Vec<Key>) -> (r: Self)
        ensures
            r.role == self.role,
            r.minimum == self.minimum,
            r.maximum == self.maximum,
            r.allowed_classes == self.allowed_classes,
            r.slot_requirement == self.slot_requirement,
            r.allowed_slots == allowed_slots,
    {
        let mut r = self;
        r.allowed_slots = allowed_slots;
        r
    }

    pub fn allows_class(&self, class: EntityClass) -> (r: bool)
        ensures
            r == allows_class_spec(*self, class),
    {
        let n = self.allowed_classes.len();
        if n == 0 {
            return true;
        }
        for i in 0..n
            invariant
                n == self.allowed_classes@.len(),
                forall|j: int| 0 <= j < i ==> self.allowed_classes@[j] != class,
        {
            if self.allowed_classes[i] == class {
                assert(self.allowed_classes@[i as int] == class);
                return true;
            }
        }
        false
    }

    pub fn allows_slot(&self, slot: &Key) -> (r: bool)
        ensures
            r == allows_slot_spec(*self, slot@),
    {
        let n = self.allowed_slots.len();
        if n == 0 {
            return true;
        }
        for i in 0..n
            invariant
                n == self.allowed_slots@.len(),
                forall|j: int| 0 <= j < i ==> self.allowed_slots@[j]@ != slot@,
        {
            if self.allowed_slots[i].same_key(slot) {
                assert(key_views(self.allowed_slots@)[i as int] == slot@);
                return true;
            }
        }
        assert forall|j: int| 0 <= j < n implies key_views(self.allowed_slots@)[j] != slot@ by {
            assert(key_views(self.allowed_slots@)[j] == self.allowed_slots@[j]@);
        }
        false
    }
}

/// Cross-record invariants applied to the active relationships of one schema.
#[derive(Debug)]
pub enum RelationshipRule {
    /// An entity may take part in at most one active relationship of this
    /// schema in the named role.
    RoleExclusive { role: Key },
    /// At most `capacity` active occupant relationships may use the same
    /// slot on the same host entity.
    SlotCapacity { host_role: Key, occupant_role: Key, capacity: usize },
}

impl Clone for RelationshipRule {
    fn clone(&self) -> (r: Self)
        ensures
            r == *self,
    {
        match self {
            RelationshipRule::RoleExclusive { role } => RelationshipRule::RoleExclusive { role: role.clone() },
            RelationshipRule::SlotCapacity { host_role, occupant_role, capacity } =>
                RelationshipRule::SlotCapacity {
                host_role: host_role.clone(),
                occupant_role: occupant_role.clone(),
                capacity: *capacity,
            },
        }
    }
}

#[derive(Debug)]
pub enum RelationshipSchemaDefinitionError {
    ZeroVersion,
    NoRoles,
    DuplicateRole(Key),
    InvalidRoleCardinality { role: Key, minimum: usize, maximum: Option<usize> },
    DuplicateAllowedSlot { role: Key, slot: Key },
    DuplicateAllowedClass { role: Key, class: EntityClass },
    SlotsForbiddenButDeclared(Key),
    InvalidPropertySchema(SchemaDefinitionError),
    UnknownRuleRole(Key),
    ZeroSlotCapacity,
    SlotCapacitySameRole(Key),
    SlotCapacityRequiresSingleHost(Key),
    SlotCapacityRequiresSlottedRole(Key),
}

/// A relationship schema definition error as contracts see it.
pub enum RelSchemaErrorView {
    ZeroVersion,
    NoRoles,
    DuplicateRole(Seq<char>),
    InvalidRoleCardinality { role: Seq<char>, minimum: usize, maximum: Option<usize> },
    DuplicateAllowedSlot { role: Seq<char>, slot: Seq<char> },
    DuplicateAllowedClass { role: Seq<char>, class: EntityClass },
    SlotsForbiddenButDeclared(Seq<char>),
    InvalidPropertySchema(SchemaDefinitionErrorView),
    UnknownRuleRole(Seq<char>),
    ZeroSlotCapacity,
    SlotCapacitySameRole(Seq<char>),
    SlotCapacityRequiresSingleHost(Seq<char>),
    SlotCapacityRequiresSlottedRole(Seq<char>),
}

impl View for RelationshipSchemaDefinitionError {
    type V = RelSchemaErrorView;

    open spec fn view(&self) -> RelSchemaErrorView {
        match *self {
            RelationshipSchemaDefinitionError::ZeroVersion => RelSchemaErrorView::ZeroVersion,
            RelationshipSchemaDefinitionError::NoRoles => RelSchemaErrorView::NoRoles,
            RelationshipSchemaDefinitionError::DuplicateRole(r) => RelSchemaErrorView::DuplicateRole(r@),
            RelationshipSchemaDefinitionError::InvalidRoleCardinality { role, minimum, maximum } =>
                RelSchemaErrorView::InvalidRoleCardinality { role: role@, minimum, maximum },
            RelationshipSchemaDefinitionError::DuplicateAllowedSlot { role, slot } =>
                RelSchemaErrorView::DuplicateAllowedSlot { role: role@, slot: slot@ },
            RelationshipSchemaDefinitionError::DuplicateAllowedClass { role, class } =>
                RelSchemaErrorView::DuplicateAllowedClass { role: role@, class },
            RelationshipSchemaDefinitionError::SlotsForbiddenButDeclared(r) =>
                RelSchemaErrorView::SlotsForbiddenButDeclared(r@),
            RelationshipSchemaDefinitionError::InvalidPropertySchema(e) =>
                RelSchemaErrorView::InvalidPropertySchema(e@),
            RelationshipSchemaDefinitionError::UnknownRuleRole(r) => RelSchemaErrorView::UnknownRuleRole(r@),
            RelationshipSchemaDefinitionError::ZeroSlotCapacity => RelSchemaErrorView::ZeroSlotCapacity,
            RelationshipSchemaDefinitionError::SlotCapacitySameRole(r) =>
                RelSchemaErrorView::SlotCapacitySameRole(r@),
            RelationshipSchemaDefinitionError::SlotCapacityRequiresSingleHost(r) =>
                RelSchemaErrorView::SlotCapacityRequiresSingleHost(r@),
            RelationshipSchemaDefinitionError::SlotCapacityRequiresSlottedRole(r) =>
                RelSchemaErrorView::SlotCapacityRequiresSlottedRole(r@),
        }
    }
}

/// The text of a relationship schema definition error.
pub open spec fn rel_schema_error_text(e: RelationshipSchemaDefinitionError) -> Seq<char> {
    match e {
        RelationshipSchemaDefinitionError::ZeroVersion => "relationship schema version must be at least 1"@,
        RelationshipSchemaDefinitionError::NoRoles => "relationship schema must declare at least one role"@,
        RelationshipSchemaDefinitionError::DuplicateRole(role) => "duplicate relationship role: "@ + role@,
        RelationshipSchemaDefinitionError::InvalidRoleCardinality { role, minimum, maximum } =>
            "invalid cardinality for role "@ + role@ + ": minimum "@ + int_text(minimum as int)
            + ", maximum "@ + opt_int_text(opt_usize(maximum)),
        RelationshipSchemaDefinitionError::DuplicateAllowedSlot { role, slot } => "role "@ + role@
            + " declares duplicate allowed slot "@ + slot@,
        RelationshipSchemaDefinitionError::DuplicateAllowedClass { role, class } => "role "@ + role@
            + " declares duplicate allowed class "@ + class_text(class),
        RelationshipSchemaDefinitionError::SlotsForbiddenButDeclared(role) => "role "@ + role@
            + " forbids slots but declares allowed slots"@,
        RelationshipSchemaDefinitionError::InvalidPropertySchema(error) =>
            "relationship property schema is invalid: "@ + schema_error_text(error),
        RelationshipSchemaDefinitionError::UnknownRuleRole(role) => "relationship rule references unknown role "@
            + role@,
        RelationshipSchemaDefinitionError::ZeroSlotCapacity => "slot capacity must be at least 1"@,
        RelationshipSchemaDefinitionError::SlotCapacitySameRole(role) =>
            "slot-capacity host and occupant roles must differ; both were "@ + role@,
        RelationshipSchemaDefinitionError::SlotCapacityRequiresSingleHost(role) => "slot-capacity host role "@
            + role@ + " must require exactly one participant"@,
        RelationshipSchemaDefinitionError::SlotCapacityRequiresSlottedRole(role) =>
            "slot-capacity rule requires occupant role "@ + role@ + " to permit slots"@,
    }
}

fn around(prefix: &str, middle: &str, suffix: &str) -> (r: String)
    ensures
        r@ == prefix@ + middle@ + suffix@,
{
    let out = join(prefix.to_owned(), middle);
    join(out, suffix)
}

impl RelationshipSchemaDefinitionError {
    pub fn message(&self) -> (r: String)
        ensures
            r@ == rel_schema_error_text(*self),
    {
        match self {
            RelationshipSchemaDefinitionError::ZeroVersion => String::from_str(
                "relationship schema version must be at least 1",
            ),
            RelationshipSchemaDefinitionError::NoRoles => String::from_str(
                "relationship schema must declare at least one role",
            ),
            RelationshipSchemaDefinitionError::DuplicateRole(role) => join(
                String::from_str("duplicate relationship role: "),
                role.as_str()
            ),
            RelationshipSchemaDefinitionError::InvalidRoleCardinality { role, minimum, maximum } => {
                let out = around("invalid cardinality for role ", role.as_str(), ": minimum ");
                let out = join(out, usize_text(*minimum).as_str());
                let out = join(out, ", maximum ");
                let m = match maximum {
                    Some(v) => some_wrapped(usize_text(*v).as_str()),
                    None => String::from_str("None"),
                };
                join(out, m.as_str())
            },
            RelationshipSchemaDefinitionError::DuplicateAllowedSlot { role, slot } => {
                let out = around("role ", role.as_str(), " declares duplicate allowed slot ");
                join(out, slot.as_str())
            },
            RelationshipSchemaDefinitionError::DuplicateAllowedClass { role, class } => {
                let out = around("role ", role.as_str(), " declares duplicate allowed class ");
                join(out, class.debug_text().as_str())
            },
            RelationshipSchemaDefinitionError::SlotsForbiddenButDeclared(role) => around(
                "role ",
                role.as_str(),
                " forbids slots but declares allowed slots",
            ),
            RelationshipSchemaDefinitionError::InvalidPropertySchema(error) => join(
                String::from_str("relationship property schema is invalid: "),
                error.message().as_str()
            ),
            RelationshipSchemaDefinitionError::UnknownRuleRole(role) => join(
                String::from_str("relationship rule references unknown role "),
                role.as_str()
            ),
            RelationshipSchemaDefinitionError::ZeroSlotCapacity => String::from_str(
                "slot capacity must be at least 1",
            ),
            RelationshipSchemaDefinitionError::SlotCapacitySameRole(role) => join(
                String::from_str("slot-capacity host and occupant roles must differ; both were "),
                role.as_str()
            ),
            RelationshipSchemaDefinitionError::SlotCapacityRequiresSingleHost(role) => around(
                "slot-capacity host role ",
                role.as_str(),
                " must require exactly one participant",
            ),
            RelationshipSchemaDefinitionError::SlotCapacityRequiresSlottedRole(role) => around(
                "slot-capacity rule requires occupant role ",
                role.as_str(),
                " to permit slots",
            ),
        }
    }
}

/// Versioned structural contract for one relationship type.
#[derive(Debug)]
pub struct RelationshipSchema {
    pub key: Key,
    pub version: u32,
    pub owner: Key,
    pub roles: Vec<ParticipantRoleSchema>,
    pub properties: Vec<FieldSchema>,
    pub rules: Vec<RelationshipRule>,
    pub allow_unknown_properties: bool,
    pub allow_same_entity_in_multiple_roles: bool,
}

// ----------------------------------------------------------------------
// Definition rules
// ----------------------------------------------------------------------
/// The first position below `n` whose item already occurs before it.
pub open spec fn first_repeat<T>(s: Seq<T>, n: int) -> Option<int>
    decreases n,
{
    if n <= 0 || n > s.len() {
        None
    } else {
        match first_repeat(s, n - 1) {
            Some(j) => Some(j),
            None => if s.subrange(0, n - 1).contains(s[n - 1]) {
                Some(n - 1)
            } else {
                None
            },
        }
    }
}

/// The first role below `n` whose key is `k`.
pub open spec fn first_role_with_key(roles: Seq<ParticipantRoleSchema>, k: Seq<char>, n: int) -> Option<
    int,
>
    decreases n,
{
    if n <= 0 || n > roles.len() {
        None
    } else {
        match first_role_with_key(roles, k, n - 1) {
            Some(i) => Some(i),
            None => if roles[n - 1].role@ == k {
                Some(n - 1)
            } else {
                None
            },
        }
    }
}

/// The role declared with key `k`, if any.
pub open spec fn role_lookup(roles: Seq<ParticipantRoleSchema>, k: Seq<char>) -> Option<int> {
    first_role_with_key(roles, k, roles.len() as int)
}

/// What is wrong with one role taken alone.
pub open spec fn role_error(role: ParticipantRoleSchema) -> Option<RelSchemaErrorView> {
    if role.maximum matches Some(m) && role.minimum > m {
        Some(
            RelSchemaErrorView::InvalidRoleCardinality {
                role: role.role@,
                minimum: role.minimum,
                maximum: role.maximum,
            },
        )
    } else if role.slot_requirement == SlotRequirement::Forbidden && role.allowed_slots@.len() > 0 {
        Some(RelSchemaErrorView::SlotsForbiddenButDeclared(role.role@))
    } else if let Some(j) = first_repeat(
        key_views(role.allowed_slots@),
        role.allowed_slots@.len() as int,
    ) {
        Some(RelSchemaErrorView::DuplicateAllowedSlot { role: role.role@, slot: role.allowed_slots@[j]@ })
    } else if let Some(j) = first_repeat(role.allowed_classes@, role.allowed_classes@.len() as int) {
        Some(RelSchemaErrorView::DuplicateAllowedClass { role: role.role@, class: role.allowed_classes@[j] })
    } else {
        None
    }
}

/// The first error among the first `n` roles, each checked for a key
/// repeated from an earlier role and then alone.
pub open spec fn roles_error(roles: Seq<ParticipantRoleSchema>, n: int) -> Option<RelSchemaErrorView>
    decreases n,
{
    if n <= 0 || n > roles.len() {
        None
    } else {
        match roles_error(roles, n - 1) {
            Some(e) => Some(e),
            None => if first_role_with_key(roles, roles[n - 1].role@, n - 1) is Some {
                Some(RelSchemaErrorView::DuplicateRole(roles[n - 1].role@))
            } else {
                role_error(roles[n - 1])
            },
        }
    }
}

/// What is wrong with one rule of a schema with these roles.
pub open spec fn rule_error(roles: Seq<ParticipantRoleSchema>, rule: RelationshipRule) -> Option<
    RelSchemaErrorView,
> {
    match rule {
        RelationshipRule::RoleExclusive { role } => if role_lookup(roles, role@) is None {
            Some(RelSchemaErrorView::UnknownRuleRole(role@))
        } else {
            None
        },
        RelationshipRule::SlotCapacity { host_role, occupant_role, capacity } => if capacity == 0 {
            Some(RelSchemaErrorView::ZeroSlotCapacity)
        } else if host_role@ == occupant_role@ {
            Some(RelSchemaErrorView::SlotCapacitySameRole(host_role@))
        } else if let Some(h) = role_lookup(roles, host_role@) {
            if roles[h].minimum != 1 || roles[h].maximum != Some(1usize) {
                Some(RelSchemaErrorView::SlotCapacityRequiresSingleHost(host_role@))
            } else if let Some(o) = role_lookup(roles, occupant_role@) {
                if roles[o].slot_requirement == SlotRequirement::Forbidden {
                    Some(RelSchemaErrorView::SlotCapacityRequiresSlottedRole(occupant_role@))
                } else {
                    None
                }
            } else {
                Some(RelSchemaErrorView::UnknownRuleRole(occupant_role@))
            }
        } else {
            Some(RelSchemaErrorView::UnknownRuleRole(host_role@))
        },
    }
}

/// The first error among the first `n` rules.
pub open spec fn rules_error(
    roles: Seq<ParticipantRoleSchema>,
    rules: Seq<RelationshipRule>,
    n: int,
) -> Option<RelSchemaErrorView>
    decreases n,
{
    if n <= 0 || n > rules.len() {
        None
    } else {
        match rules_error(roles, rules, n - 1) {
            Some(e) => Some(e),
            None => rule_error(roles, rules[n - 1]),
        }
    }
}

/// The first definition error of a relationship schema: its version, its
/// roles in order, its property fields, then its rules in order.
pub open spec fn relationship_schema_error(s: RelationshipSchema) -> Option<RelSchemaErrorView> {
    if s.version == 0 {
        Some(RelSchemaErrorView::ZeroVersion)
    } else if s.roles@.len() == 0 {
        Some(RelSchemaErrorView::NoRoles)
    } else if let Some(e) = roles_error(s.roles@, s.roles@.len() as int) {
        Some(e)
    } else if let Some(e) = schema_definition_error(s.version, s.properties@) {
        Some(RelSchemaErrorView::InvalidPropertySchema(e))
    } else {
        rules_error(s.roles@, s.rules@, s.rules@.len() as int)
    }
}

proof fn lemma_first_role_with_key(roles: Seq<ParticipantRoleSchema>, k: Seq<char>, n: int)
    requires
        0 <= n <= roles.len(),
    ensures
        first_role_with_key(roles, k, n) is None <==> forall|j: int|
            0 <= j < n ==> (#[trigger] roles[j]).role@ != k,
        first_role_with_key(roles, k, n) matches Some(i) ==> 0 <= i < n && roles[i].role@ == k,
    decreases n,
{
    if n > 0 {
        lemma_first_role_with_key(roles, k, n - 1);
    }
}

proof fn lemma_first_role_stable(roles: Seq<ParticipantRoleSchema>, k: Seq<char>, m: int, n: int)
    requires
        0 < m <= n <= roles.len(),
        first_role_with_key(roles, k, m) is Some,
    ensures
        first_role_with_key(roles, k, n) == first_role_with_key(roles, k, m),
    decreases n - m,
{
    if n > m {
        lemma_first_role_stable(roles, k, m, n - 1);
    }
}

/// The first role with this key.
pub fn find_role<'a>(roles: &'a Vec<ParticipantRoleSchema>, key: &str) -> (r: Option<
    &'a ParticipantRoleSchema,
>)
    ensures
        match role_lookup(roles@, key@) {
            Some(i) => r == Some(&roles@[i]),
            None => r is None,
        },
{
    let n = roles.len();
    for i in 0..n
        invariant
            n == roles@.len(),
            first_role_with_key(roles@, key@, i as int) is None,
    {
        if crate::text::str_eq(roles[i].role.as_str(), key) {
            proof {
                lemma_first_role_stable(roles@, key@, i + 1, n as int);
            }
            return Some(&roles[i]);
        }
    }
    None
}

fn first_repeated_slot(slots: &Vec<Key>) -> (r: Option<usize>)
    ensures
        match first_repeat(key_views(slots@), slots@.len() as int) {
            Some(j) => r matches Some(k) && k as int == j,
            None => r is None,
        },
        r matches Some(j) ==> j < slots@.len(),
{
    let n = slots.len();
    let ghost s = key_views(slots@);
    for j in 0..n
        invariant
            n == slots@.len(),
            s == key_views(slots@),
            first_repeat(s, j as int) is None,
    {
        let mut found = false;
        for i in 0..j
            invariant
                j < n,
                n == slots@.len(),
                s == key_views(slots@),
                found == exists|k: int| 0 <= k < i && (#[trigger] s[k]) == s[j as int],
        {
            if slots[i].same_key(&slots[j]) {
                assert(s[i as int] == s[j as int]);
                found = true;
            }
        }
        proof {
            if found {
                let k = choose|k: int| 0 <= k < j && (#[trigger] s[k]) == s[j as int];
                assert(s.subrange(0, j as int)[k] == s[j as int]);
            }
            if s.subrange(0, j as int).contains(s[j as int]) {
                let k = choose|k: int| 0 <= k < j && #[trigger] s.subrange(0, j as int)[k] == s[j as int];
                assert(s[k] == s[j as int]);
            }
        }
        if found {
            proof {
                lemma_first_repeat_stable(s, j + 1, n as int);
            }
            return Some(j);
        }
    }
    None
}

fn first_repeated_class(classes: &Vec<EntityClass>) -> (r: Option<usize>)
    ensures
        match first_repeat(classes@, classes@.len() as int) {
            Some(j) => r matches Some(k) && k as int == j,
            None => r is None,
        },
        r matches Some(j) ==> j < classes@.len(),
{
    let n = classes.len();
    let ghost s = classes@;
    for j in 0..n
        invariant
            n == classes@.len(),
            s == classes@,
            first_repeat(s, j as int) is None,
    {
        let mut found = false;
        for i in 0..j
            invariant
                j < n,
                n == classes@.len(),
                s == classes@,
                found == exists|k: int| 0 <= k < i && (#[trigger] s[k]) == s[j as int],
        {
            if classes[i] == classes[j] {
                assert(s[i as int] == s[j as int]);
                found = true;
            }
        }
        proof {
            if found {
                let k = choose|k: int| 0 <= k < j && (#[trigger] s[k]) == s[j as int];
                assert(s.subrange(0, j as int)[k] == s[j as int]);
            }
            if s.subrange(0, j as int).contains(s[j as int]) {
                let k = choose|k: int| 0 <= k < j && #[trigger] s.subrange(0, j as int)[k] == s[j as int];
                assert(s[k] == s[j as int]);
            }
        }
        if found {
            proof {
                lemma_first_repeat_stable(s, j + 1, n as int);
            }
            return Some(j);
        }
    }
    None
}

proof fn lemma_roles_error_stable(roles: Seq<ParticipantRoleSchema>, m: int, n: int)
    requires
        0 < m <= n <= roles.len(),
        roles_error(roles, m) is Some,
    ensures
        roles_error(roles, n) == roles_error(roles, m),
    decreases n - m,
{
    if n > m {
        lemma_roles_error_stable(roles, m, n - 1);
    }
}

proof fn lemma_rules_error_stable(roles: Seq<ParticipantRoleSchema>, rules: Seq<RelationshipRule>, m: int, n: int)
    requires
        0 < m <= n <= rules.len(),
        rules_error(roles, rules, m) is Some,
    ensures
        rules_error(roles, rules, n) == rules_error(roles, rules, m),
    decreases n - m,
{
    if n > m {
        lemma_rules_error_stable(roles, rules, m, n - 1);
    }
}

proof fn lemma_first_repeat_stable<T>(s: Seq<T>, m: int, n: int)
    requires
        0 < m <= n <= s.len(),
        first_repeat(s, m) is Some,
    ensures
        first_repeat(s, n) == first_repeat(s, m),
    decreases n - m,
{
    if n > m {
        lemma_first_repeat_stable(s, m, n - 1);
    }
}

fn check_role(role: &ParticipantRoleSchema) -> (r: Result<(), RelationshipSchemaDefinitionError>)
    ensures
        match role_error(*role) {
            Some(e) => r matches Err(x) && x@ == e,
            None => r is Ok,
        },
{
    if let Some(maximum) = role.maximum {
        if role.minimum > maximum {
            return Err(
                RelationshipSchemaDefinitionError::InvalidRoleCardinality {
                    role: role.role.clone(),
                    minimum: role.minimum,
                    maximum: role.maximum,
                },
            );
        }
    }
    if role.slot_requirement == SlotRequirement::Forbidden && role.allowed_slots.len() > 0 {
        return Err(RelationshipSchemaDefinitionError::SlotsForbiddenButDeclared(role.role.clone()));
    }
    if let Some(j) = first_repeated_slot(&role.allowed_slots) {
        return Err(
            RelationshipSchemaDefinitionError::DuplicateAllowedSlot {
                role: role.role.clone(),
                slot: role.allowed_slots[j].clone(),
            },
        );
    }
    if let Some(j) = first_repeated_class(&role.allowed_classes) {
        return Err(
            RelationshipSchemaDefinitionError::DuplicateAllowedClass {
                role: role.role.clone(),
                class: role.allowed_classes[j],
            },
        );
    }
    Ok(())
}

fn check_rule(roles: &Vec<ParticipantRoleSchema>, rule: &RelationshipRule) -> (r: Result<
    (),
    RelationshipSchemaDefinitionError,
>)
    ensures
        match rule_error(roles@, *rule) {
            Some(e) => r matches Err(x) && x@ == e,
            None => r is Ok,
        },
{
    match rule {
        RelationshipRule::RoleExclusive { role } => {
            if find_role(roles, role.as_str()).is_none() {
                return Err(RelationshipSchemaDefinitionError::UnknownRuleRole(role.clone()));
            }
            Ok(())
        },
        RelationshipRule::SlotCapacity { host_role, occupant_role, capacity } => {
            if *capacity == 0 {
                return Err(RelationshipSchemaDefinitionError::ZeroSlotCapacity);
            }
            if host_role.same_key(occupant_role) {
                return Err(RelationshipSchemaDefinitionError::SlotCapacitySameRole(host_role.clone()));
            }
            let host = match find_role(roles, host_role.as_str()) {
                Some(h) => h,
                None => {
                    return Err(RelationshipSchemaDefinitionError::UnknownRuleRole(host_role.clone()));
                },
            };
            let single = match host.maximum {
                Some(m) => m == 1,
                None => false,
            };
            if host.minimum != 1 || !single {
                return Err(
                    RelationshipSchemaDefinitionError::SlotCapacityRequiresSingleHost(host_role.clone()),
                );
            }
            let occupant = match find_role(roles, occupant_role.as_str()) {
                Some(o) => o,
                None => {
                    return Err(RelationshipSchemaDefinitionError::UnknownRuleRole(occupant_role.clone()));
                },
            };
            if occupant.slot_requirement == SlotRequirement::Forbidden {
                return Err(
                    RelationshipSchemaDefinitionError::SlotCapacityRequiresSlottedRole(
                        occupant_role.clone(),
                    ),
                );
            }
            Ok(())
        },
    }
}

/// Two roles with the same content.
pub open spec fn same_role(a: ParticipantRoleSchema, b: ParticipantRoleSchema) -> bool {
    &&& a.role == b.role
    &&& a.minimum == b.minimum
    &&& a.maximum == b.maximum
    &&& a.allowed_classes@ == b.allowed_classes@
    &&& a.slot_requirement == b.slot_requirement
    &&& a.allowed_slots@ == b.allowed_slots@
}

/// Two fields with the same content.
pub open spec fn same_field(a: FieldSchema, b: FieldSchema) -> bool {
    &&& a.key == b.key
    &&& a.field_type == b.field_type
    &&& a.requirement == b.requirement
    &&& a.persistence == b.persistence
    &&& a.constraints@.len() == b.constraints@.len()
    &&& forall|i: int| 0 <= i < a.constraints@.len() ==> (#[trigger] a.constraints@[i])@ == b.constraints@[i]@
}

impl Clone for RelationshipSchema {
    fn clone(&self) -> (r: Self)
        ensures
            r.key == self.key,
            r.version == self.version,
            r.owner == self.owner,
            r.roles@.len() == self.roles@.len(),
            forall|i: int| 0 <= i < self.roles@.len() ==> same_role(#[trigger] r.roles@[i], self.roles@[i]),
            r.rules@ == self.rules@,
            r.properties@.len() == self.properties@.len(),
            forall|i: int|
                0 <= i < self.properties@.len() ==> same_field(#[trigger] r.properties@[i], self.properties@[i]),
            r.allow_unknown_properties == self.allow_unknown_properties,
            r.allow_same_entity_in_multiple_roles == self.allow_same_entity_in_multiple_roles,
    {
        let mut roles: Vec<ParticipantRoleSchema> = Vec::new();
        for i in 0..self.roles.len()
            invariant
                roles@.len() == i,
                forall|j: int| 0 <= j < i ==> same_role(#[trigger] roles@[j], self.roles@[j]),
        {
            roles.push(self.roles[i].clone());
        }
        let mut properties: Vec<FieldSchema> = Vec::new();
        for i in 0..self.properties.len()
            invariant
                properties@.len() == i,
                forall|j: int| 0 <= j < i ==> same_field(#[trigger] properties@[j], self.properties@[j]),
        {
            properties.push(self.properties[i].clone());
        }
        let mut rules: Vec<RelationshipRule> = Vec::new();
        for i in 0..self.rules.len()
            invariant
                rules@ == self.rules@.subrange(0, i as int),
        {
            rules.push(self.rules[i].clone());
            assert(rules@ =~= self.rules@.subrange(0, i + 1));
        }
        assert(rules@ =~= self.rules@);
        RelationshipSchema {
            key: self.key.clone(),
            version: self.version,
            owner: self.owner.clone(),
            roles,
            properties,
            rules,
            allow_unknown_properties: self.allow_unknown_properties,
            allow_same_entity_in_multiple_roles: self.allow_same_entity_in_multiple_roles,
        }
    }
}

impl RelationshipSchema {
    /// A schema that obeys the definition rules; unknown properties and an
    /// entity in several roles are refused.
    pub fn new(
        key: Key,
        version: u32,
        owner: Key,
        roles: Vec<ParticipantRoleSchema>,
        properties: Vec<FieldSchema>,
        rules: Vec<RelationshipRule>,
    ) -> (r: Result<Self, RelationshipSchemaDefinitionError>)
        ensures
            ({
                let s = RelationshipSchema {
                    key,
                    version,
                    owner,
                    roles,
                    properties,
                    rules,
                    allow_unknown_properties: false,
                    allow_same_entity_in_multiple_roles: false,
                };
                match relationship_schema_error(s) {
                    None => r == Ok::<Self, RelationshipSchemaDefinitionError>(s),
                    Some(e) => r matches Err(x) && x@ == e,
                }
            }),
    {
        let schema = RelationshipSchema {
            key,
            version,
            owner,
            roles,
            properties,
            rules,
            allow_unknown_properties: false,
            allow_same_entity_in_multiple_roles: false,
        };
        match schema.validate_definition() {
            Ok(()) => Ok(schema),
            Err(e) => Err(e),
        }
    }

    pub fn schema_ref(&self) -> (r: RelationshipSchemaRef)
        ensures
            r.key == self.key,
            r.version == self.version,
    {
        RelationshipSchemaRef { key: self.key.clone(), version: self.version }
    }

    pub fn allow_unknown_properties(self, allow: bool) -> (r: Self)
        ensures
            r == (RelationshipSchema { allow_unknown_properties: allow, ..self }),
    {
        let mut s = self;
        s.allow_unknown_properties = allow;
        s
    }

    pub fn allow_same_entity_in_multiple_roles(self, allow: bool) -> (r: Self)
        ensures
            r == (RelationshipSchema { allow_same_entity_in_multiple_roles: allow, ..self }),
    {
        let mut s = self;
        s.allow_same_entity_in_multiple_roles = allow;
        s
    }

    /// The first role with this key.
    pub fn role(&self, role: &str) -> (r: Option<&ParticipantRoleSchema>)
        ensures
            match role_lookup(self.roles@, role@) {
                Some(i) => r == Some(&self.roles@[i]),
                None => r is None,
            },
    {
        find_role(&self.roles, role)
    }

    /// Checks the definition rules and reports the first violation.
    pub fn validate_definition(&self) -> (r: Result<(), RelationshipSchemaDefinitionError>)
        ensures
            match relationship_schema_error(*self) {
                Some(e) => r matches Err(x) && x@ == e,
                None => r is Ok,
            },
    {
        if self.version == 0 {
            return Err(RelationshipSchemaDefinitionError::ZeroVersion);
        }
        if self.roles.len() == 0 {
            return Err(RelationshipSchemaDefinitionError::NoRoles);
        }
        let n = self.roles.len();
        for i in 0..n
            invariant
                n == self.roles@.len(),
                self.version != 0,
                n > 0,
                roles_error(self.roles@, i as int) is None,
        {
            let role = &self.roles[i];
            let mut repeated = false;
            for j in 0..i
                invariant
                    i < n,
                    n == self.roles@.len(),
                    *role == self.roles@[i as int],
                    repeated == (first_role_with_key(self.roles@, self.roles@[i as int].role@, j as int) is Some),
            {
                proof {
                    reveal_with_fuel(first_role_with_key, 1);
                    assert(first_role_with_key(self.roles@, self.roles@[i as int].role@, j + 1) == match first_role_with_key(self.roles@, self.roles@[i as int].role@, j as int) {
                        Some(x) => Some(x),
                        None => if self.roles@[j as int].role@ == self.roles@[i as int].role@ { Some(j as int) } else { None },
                    });
                }
                if self.roles[j].role.same_key(&role.role) {
                    repeated = true;
                }
            }
            if repeated {
                proof {
                    lemma_roles_error_stable(self.roles@, i + 1, n as int);
                }
                return Err(RelationshipSchemaDefinitionError::DuplicateRole(role.role.clone()));
            }
            match check_role(role) {
                Err(e) => {
                    proof {
                        lemma_roles_error_stable(self.roles@, i + 1, n as int);
                    }
                    return Err(e);
                },
                Ok(()) => {},
            }
        }
        match validate_fields_definition(self.version, &self.properties) {
            Err(e) => {
                return Err(RelationshipSchemaDefinitionError::InvalidPropertySchema(e));
            },
            Ok(_) => {},
        }
        let m = self.rules.len();
        for i in 0..m
            invariant
                m == self.rules@.len(),
                self.version != 0,
                self.roles@.len() > 0,
                roles_error(self.roles@, self.roles@.len() as int) is None,
                schema_definition_error(self.version, self.properties@) is None,
                rules_error(self.roles@, self.rules@, i as int) is None,
        {
            match check_rule(&self.roles, &self.rules[i]) {
                Err(e) => {
                    proof {
                        lemma_rules_error_stable(self.roles@, self.rules@, i + 1, m as int);
                    }
                    return Err(e);
                },
                Ok(()) => {},
            }
        }
        Ok(())
    }

    /// Validates relationship properties against the declared property
    /// fields; the property fields must obey the definition rules.
    pub fn validate_properties(&self, properties: &JsonValue, context: SchemaContext) -> (r:
        ComponentValidationReport)
        requires
            schema_definition_error(self.version, self.properties@) is None,
        ensures
            r@ == fields_payload_issues(self.properties@, self.allow_unknown_properties, *properties, context),
    {
        validate_fields_payload(&self.properties, self.allow_unknown_properties, properties, context)
    }
}

} // verus!
