//! Structural validation of relationships, one at a time and across the
//! relationships in force at one instant.
use crate::entity::catalog::EntityCatalog;
use crate::entity::class::EntityClass;
use crate::entity::entity::Entity;
use crate::ordered_map::{OrderedKey, OrderedMap};
use crate::relationship::relationship::{Relationship, RelationshipParticipant};
use crate::relationship::registry::{RelationshipSchemaRegistry, rel_registered_at};
use crate::relationship::schema::{ParticipantRoleSchema, RelationshipRule, RelationshipSchema, RelationshipSchemaRef, SlotRequirement, allows_class_spec, allows_slot_spec, key_views, role_lookup};
use crate::schema::component::fields_payload_issues;
use crate::schema::context::SchemaContext;
use crate::schema::validation::{ComponentValidationIssueView, ComponentValidationReport};
use crate::types::key::Key;
use crate::types::time::SimTime;
use crate::types::uid::{EntityUid, RelationshipUid};
use vstd::prelude::*;

verus! {

#[derive(Debug)]
pub enum RelationshipValidationIssueKind {
    UnknownSchema(RelationshipSchemaRef),
    InvalidTimeRange { valid_from: SimTime, valid_to: SimTime },
    UnknownRole(Key),
    MissingRequiredRole { role: Key, minimum: usize, actual: usize },
    TooManyParticipantsInRole { role: Key, maximum: usize, actual: usize },
    MissingEntity(EntityUid),
    ParticipantClassMismatch { role: Key, entity: EntityUid, actual: EntityClass, allowed: Vec<EntityClass> },
    DuplicateParticipant { entity: EntityUid, role: Key, slot: Option<Key> },
    SameEntityInMultipleRoles(EntityUid),
    SlotRequired { entity: EntityUid, role: Key },
    SlotForbidden { entity: EntityUid, role: Key, slot: Key },
    SlotNotAllowed { entity: EntityUid, role: Key, slot: Key, allowed: Vec<Key> },
    InvalidProperties(ComponentValidationReport),
    RoleExclusiveConflict {
        schema: RelationshipSchemaRef,
        role: Key,
        entity: EntityUid,
        relationships: Vec<RelationshipUid>,
    },
    SlotCapacityExceeded {
        schema: RelationshipSchemaRef,
        host: EntityUid,
        slot: Key,
        capacity: usize,
        actual: usize,
        relationships: Vec<RelationshipUid>,
    },
}

/// A relationship issue kind as contracts see it.
pub enum RelIssueKindView {
    UnknownSchema((Seq<char>, u32)),
    InvalidTimeRange { valid_from: SimTime, valid_to: SimTime },
    UnknownRole(Seq<char>),
    MissingRequiredRole { role: Seq<char>, minimum: usize, actual: usize },
    TooManyParticipantsInRole { role: Seq<char>, maximum: usize, actual: usize },
    MissingEntity(u128),
    ParticipantClassMismatch {
        role: Seq<char>,
        entity: u128,
        actual: EntityClass,
        allowed: Seq<EntityClass>,
    },
    DuplicateParticipant { entity: u128, role: Seq<char>, slot: Option<Seq<char>> },
    SameEntityInMultipleRoles(u128),
    SlotRequired { entity: u128, role: Seq<char> },
    SlotForbidden { entity: u128, role: Seq<char>, slot: Seq<char> },
    SlotNotAllowed { entity: u128, role: Seq<char>, slot: Seq<char>, allowed: Seq<Seq<char>> },
    InvalidProperties(Seq<ComponentValidationIssueView>),
    RoleExclusiveConflict {
        schema: (Seq<char>, u32),
        role: Seq<char>,
        entity: u128,
        relationships: Seq<u128>,
    },
    SlotCapacityExceeded {
        schema: (Seq<char>, u32),
        host: u128,
        slot: Seq<char>,
        capacity: usize,
        actual: usize,
        relationships: Seq<u128>,
    },
}

/// The text of an optional key.
pub open spec fn opt_key(k: Option<Key>) -> Option<Seq<char>> {
    match k {
        Some(x) => Some(x@),
        None => None,
    }
}

/// The identities of a list of relationships.
pub open spec fn uid_views(us: Seq<RelationshipUid>) -> Seq<u128> {
    us.map_values(|u: RelationshipUid| u@)
}

impl View for RelationshipValidationIssueKind {
    type V = RelIssueKindView;

    open spec fn view(&self) -> RelIssueKindView {
        match *self {
            RelationshipValidationIssueKind::UnknownSchema(s) => RelIssueKindView::UnknownSchema(s@),
            RelationshipValidationIssueKind::InvalidTimeRange { valid_from, valid_to } =>
                RelIssueKindView::InvalidTimeRange { valid_from, valid_to },
            RelationshipValidationIssueKind::UnknownRole(r) => RelIssueKindView::UnknownRole(r@),
            RelationshipValidationIssueKind::MissingRequiredRole { role, minimum, actual } =>
                RelIssueKindView::MissingRequiredRole { role: role@, minimum, actual },
            RelationshipValidationIssueKind::TooManyParticipantsInRole { role, maximum, actual } =>
                RelIssueKindView::TooManyParticipantsInRole { role: role@, maximum, actual },
            RelationshipValidationIssueKind::MissingEntity(e) => RelIssueKindView::MissingEntity(e@),
            RelationshipValidationIssueKind::ParticipantClassMismatch { role, entity, actual, allowed } =>
                RelIssueKindView::ParticipantClassMismatch {
                role: role@,
                entity: entity@,
                actual,
                allowed: allowed@,
            },
            RelationshipValidationIssueKind::DuplicateParticipant { entity, role, slot } =>
                RelIssueKindView::DuplicateParticipant { entity: entity@, role: role@, slot: opt_key(slot) },
            RelationshipValidationIssueKind::SameEntityInMultipleRoles(e) =>
                RelIssueKindView::SameEntityInMultipleRoles(e@),
            RelationshipValidationIssueKind::SlotRequired { entity, role } =>
                RelIssueKindView::SlotRequired { entity: entity@, role: role@ },
            RelationshipValidationIssueKind::SlotForbidden { entity, role, slot } =>
                RelIssueKindView::SlotForbidden { entity: entity@, role: role@, slot: slot@ },
            RelationshipValidationIssueKind::SlotNotAllowed { entity, role, slot, allowed } =>
                RelIssueKindView::SlotNotAllowed {
                entity: entity@,
                role: role@,
                slot: slot@,
                allowed: key_views(allowed@),
            },
            RelationshipValidationIssueKind::InvalidProperties(report) =>
                RelIssueKindView::InvalidProperties(report@),
            RelationshipValidationIssueKind::RoleExclusiveConflict { schema, role, entity, relationships } =>
                RelIssueKindView::RoleExclusiveConflict {
                schema: schema@,
                role: role@,
                entity: entity@,
                relationships: uid_views(relationships@),
            },
            RelationshipValidationIssueKind::SlotCapacityExceeded {
                schema,
                host,
                slot,
                capacity,
                actual,
                relationships,
            } => RelIssueKindView::SlotCapacityExceeded {
                schema: schema@,
                host: host@,
                slot: slot@,
                capacity,
                actual,
                relationships: uid_views(relationships@),
            },
        }
    }
}

#[derive(Debug)]
pub struct RelationshipValidationIssue {
    pub relationship: Option<RelationshipUid>,
    pub kind: RelationshipValidationIssueKind,
}

/// A relationship issue as contracts see it.
pub struct RelIssueView {
    pub relationship: Option<u128>,
    pub kind: RelIssueKindView,
}

impl View for RelationshipValidationIssue {
    type V = RelIssueView;

    open spec fn view(&self) -> RelIssueView {
        RelIssueView {
            relationship: match self.relationship {
                Some(u) => Some(u@),
                None => None,
            },
            kind: self.kind@,
        }
    }
}

/// The findings of relationship validation, in the order they were found.
#[derive(Debug)]
pub struct RelationshipValidationReport {
    pub issues: Vec<RelationshipValidationIssue>,
}

impl View for RelationshipValidationReport {
    type V = Seq<RelIssueView>;

    open spec fn view(&self) -> Seq<RelIssueView> {
        self.issues@.map_values(|i: RelationshipValidationIssue| i@)
    }
}

impl Default for RelationshipValidationReport {
    fn default() -> (r: Self)
        ensures
            r@ == Seq::<RelIssueView>::empty(),
    {
        let r = RelationshipValidationReport { issues: Vec::new() };
        assert(r@ =~= Seq::<RelIssueView>::empty());
        r
    }
}

impl RelationshipValidationReport {
    pub fn push(&mut self, relationship: Option<RelationshipUid>, kind: RelationshipValidationIssueKind)
        ensures
            final(self)@ == old(self)@.push(
                RelIssueView {
                    relationship: match relationship {
                        Some(u) => Some(u@),
                        None => None,
                    },
                    kind: kind@,
                },
            ),
    {
        let issue = RelationshipValidationIssue { relationship, kind };
        self.issues.push(issue);
        assert(self@ =~= old(self)@.push(issue@));
    }

    /// Appends every issue of `other`, in order.
    pub fn extend(&mut self, other: RelationshipValidationReport)
        ensures
            final(self)@ == old(self)@ + other@,
    {
        let ghost ov = other@;
        let mut other = other;
        let ghost o = other.issues@;
        self.issues.append(&mut other.issues);
        assert(self@ =~= old(self)@ + ov) by {
            assert(self.issues@ == old(self).issues@ + o);
        }
    }

    pub fn is_valid(&self) -> (r: bool)
        ensures
            r == (self@.len() == 0),
    {
        self.issues.len() == 0
    }
}

// ----------------------------------------------------------------------
// One relationship
// ----------------------------------------------------------------------
/// What makes two participants the same: entity, role and slot.
pub open spec fn identity(p: RelationshipParticipant) -> (u128, Seq<char>, Option<Seq<char>>) {
    (p.entity@, p.role@, opt_key(p.slot))
}

/// The first of the first `n` participants that is `e`.
pub open spec fn first_with_entity(ps: Seq<RelationshipParticipant>, e: u128, n: int) -> Option<int>
    decreases n,
{
    if n <= 0 || n > ps.len() {
        None
    } else {
        match first_with_entity(ps, e, n - 1) {
            Some(j) => Some(j),
            None => if ps[n - 1].entity@ == e {
                Some(n - 1)
            } else {
                None
            },
        }
    }
}

/// Participant `i` repeats an earlier participant.
pub open spec fn duplicate_issue(ps: Seq<RelationshipParticipant>, i: int) -> Seq<RelIssueKindView> {
    if exists|j: int| 0 <= j < i && identity(#[trigger] ps[j]) == identity(ps[i]) {
        seq![
            RelIssueKindView::DuplicateParticipant {
                entity: ps[i].entity@,
                role: ps[i].role@,
                slot: opt_key(ps[i].slot),
            },
        ]
    } else {
        Seq::empty()
    }
}

/// Participant `i` is an entity seen first in another role, where the
/// schema refuses that.
pub open spec fn same_entity_issue(s: RelationshipSchema, ps: Seq<RelationshipParticipant>, i: int) -> Seq<
    RelIssueKindView,
> {
    if s.allow_same_entity_in_multiple_roles {
        Seq::empty()
    } else {
        match first_with_entity(ps, ps[i].entity@, i) {
            Some(j) => if ps[j].role@ != ps[i].role@ {
                seq![RelIssueKindView::SameEntityInMultipleRoles(ps[i].entity@)]
            } else {
                Seq::empty()
            },
            None => Seq::empty(),
        }
    }
}

/// The slot of participant `p` against its role.
pub open spec fn slot_issues(role: ParticipantRoleSchema, p: RelationshipParticipant) -> Seq<RelIssueKindView> {
    match p.slot {
        None => if role.slot_requirement == SlotRequirement::Required {
            seq![RelIssueKindView::SlotRequired { entity: p.entity@, role: role.role@ }]
        } else {
            Seq::empty()
        },
        Some(slot) => if role.slot_requirement == SlotRequirement::Forbidden {
            seq![RelIssueKindView::SlotForbidden { entity: p.entity@, role: role.role@, slot: slot@ }]
        } else if !allows_slot_spec(role, slot@) {
            seq![
                RelIssueKindView::SlotNotAllowed {
                    entity: p.entity@,
                    role: role.role@,
                    slot: slot@,
                    allowed: key_views(role.allowed_slots@),
                },
            ]
        } else {
            Seq::empty()
        },
    }
}

/// The entity of participant `p` against its role: it must exist, with an
/// admitted class.
pub open spec fn class_issues(
    role: ParticipantRoleSchema,
    entities: Map<u128, Entity>,
    p: RelationshipParticipant,
) -> Seq<RelIssueKindView> {
    if entities.contains_key(p.entity@) {
        if !allows_class_spec(role, entities[p.entity@].class) {
            seq![
                RelIssueKindView::ParticipantClassMismatch {
                    role: role.role@,
                    entity: p.entity@,
                    actual: entities[p.entity@].class,
                    allowed: role.allowed_classes@,
                },
            ]
        } else {
            Seq::empty()
        }
    } else {
        seq![RelIssueKindView::MissingEntity(p.entity@)]
    }
}

/// Participant `p` against the schema's roles.
pub open spec fn role_issues(s: RelationshipSchema, entities: Map<u128, Entity>, p: RelationshipParticipant) -> Seq<
    RelIssueKindView,
> {
    match role_lookup(s.roles@, p.role@) {
        None => seq![RelIssueKindView::UnknownRole(p.role@)],
        Some(ri) => slot_issues(s.roles@[ri], p) + class_issues(s.roles@[ri], entities, p),
    }
}

/// The issues of the first `n` participants, in order.
pub open spec fn participants_issues(
    s: RelationshipSchema,
    entities: Map<u128, Entity>,
    ps: Seq<RelationshipParticipant>,
    n: int,
) -> Seq<RelIssueKindView>
    decreases n,
{
    if n <= 0 {
        Seq::empty()
    } else {
        participants_issues(s, entities, ps, n - 1) + duplicate_issue(ps, n - 1) + same_entity_issue(
            s,
            ps,
            n - 1,
        ) + role_issues(s, entities, ps[n - 1])
    }
}

/// How many of the first `n` participants are in role `role`.
pub open spec fn count_role(ps: Seq<RelationshipParticipant>, role: Seq<char>, n: int) -> nat
    decreases n,
{
    if n <= 0 {
        0
    } else {
        count_role(ps, role, n - 1) + if ps[n - 1].role@ == role {
            1nat
        } else {
            0nat
        }
    }
}

/// Role cardinality against the participants, for the first `n` roles.
pub open spec fn cardinality_issues(
    roles: Seq<ParticipantRoleSchema>,
    ps: Seq<RelationshipParticipant>,
    n: int,
) -> Seq<RelIssueKindView>
    decreases n,
{
    if n <= 0 {
        Seq::empty()
    } else {
        let role = roles[n - 1];
        let actual = count_role(ps, role.role@, ps.len() as int);
        cardinality_issues(roles, ps, n - 1) + (if actual < role.minimum {
            seq![
                RelIssueKindView::MissingRequiredRole {
                    role: role.role@,
                    minimum: role.minimum,
                    actual: actual as usize,
                },
            ]
        } else {
            Seq::empty()
        }) + (if role.maximum matches Some(m) && actual > m {
            seq![
                RelIssueKindView::TooManyParticipantsInRole {
                    role: role.role@,
                    maximum: role.maximum->0,
                    actual: actual as usize,
                },
            ]
        } else {
            Seq::empty()
        })
    }
}

/// The issue kinds of one relationship: its time range, its schema, its
/// properties, each participant in order, then each role's cardinality.
pub open spec fn relationship_kinds(
    rel: Relationship,
    schemas: Map<(Seq<char>, u32), RelationshipSchema>,
    entities: Map<u128, Entity>,
    context: SchemaContext,
) -> Seq<RelIssueKindView> {
    let time = if rel.valid_from matches Some(f) && rel.valid_to matches Some(t) && !(f@ < t@) {
        seq![RelIssueKindView::InvalidTimeRange { valid_from: rel.valid_from->0, valid_to: rel.valid_to->0 }]
    } else {
        Seq::empty()
    };
    if !schemas.contains_key(rel.schema@) {
        time.push(RelIssueKindView::UnknownSchema(rel.schema@))
    } else {
        let s = schemas[rel.schema@];
        let props = fields_payload_issues(s.properties@, s.allow_unknown_properties, rel.properties, context);
        time + (if props.len() > 0 {
            seq![RelIssueKindView::InvalidProperties(props)]
        } else {
            Seq::empty()
        }) + participants_issues(s, entities, rel.participants@, rel.participants@.len() as int)
            + cardinality_issues(s.roles@, rel.participants@, s.roles@.len() as int)
    }
}

/// Issue kinds attributed to the relationship `uid`.
pub open spec fn attributed(uid: u128, ks: Seq<RelIssueKindView>) -> Seq<RelIssueView> {
    ks.map_values(|k: RelIssueKindView| RelIssueView { relationship: Some(uid), kind: k })
}

proof fn lemma_attributed_add(uid: u128, a: Seq<RelIssueKindView>, b: Seq<RelIssueKindView>)
    ensures
        attributed(uid, a + b) == attributed(uid, a) + attributed(uid, b),
{
    assert(attributed(uid, a + b) =~= attributed(uid, a) + attributed(uid, b));
}

/// The issues of one relationship, each attributed to it.
pub open spec fn relationship_issues(
    rel: Relationship,
    schemas: Map<(Seq<char>, u32), RelationshipSchema>,
    entities: Map<u128, Entity>,
    context: SchemaContext,
) -> Seq<RelIssueView> {
    attributed(rel.uid@, relationship_kinds(rel, schemas, entities, context))
}

fn same_participant(a: &RelationshipParticipant, b: &RelationshipParticipant) -> (r: bool)
    ensures
        r == (identity(*a) == identity(*b)),
{
    if a.entity.as_uuid() != b.entity.as_uuid() || !a.role.same_key(&b.role) {
        return false;
    }
    match (&a.slot, &b.slot) {
        (None, None) => true,
        (Some(x), Some(y)) => x.same_key(y),
        _ => false,
    }
}

fn find_entity_before(ps: &Vec<RelationshipParticipant>, e: EntityUid, n: usize) -> (r: Option<usize>)
    requires
        n <= ps@.len(),
    ensures
        match first_with_entity(ps@, e@, n as int) {
            Some(j) => r matches Some(k) && k as int == j,
            None => r is None,
        },
{
    for j in 0..n
        invariant
            n <= ps@.len(),
            first_with_entity(ps@, e@, j as int) is None,
    {
        if ps[j].entity.as_uuid() == e.as_uuid() {
            proof {
                lemma_first_with_entity_stable(ps@, e@, j + 1, n as int);
            }
            return Some(j);
        }
    }
    None
}

proof fn lemma_first_with_entity_stable(ps: Seq<RelationshipParticipant>, e: u128, m: int, n: int)
    requires
        0 < m <= n <= ps.len(),
        first_with_entity(ps, e, m) is Some,
    ensures
        first_with_entity(ps, e, n) == first_with_entity(ps, e, m),
    decreases n - m,
{
    if n > m {
        lemma_first_with_entity_stable(ps, e, m, n - 1);
    }
}

proof fn lemma_first_with_entity_bound(ps: Seq<RelationshipParticipant>, e: u128, n: int)
    requires
        0 <= n <= ps.len(),
    ensures
        first_with_entity(ps, e, n) matches Some(j) ==> 0 <= j < n && ps[j].entity@ == e,
    decreases n,
{
    if n > 0 {
        lemma_first_with_entity_bound(ps, e, n - 1);
    }
}

fn count_in_role(ps: &Vec<RelationshipParticipant>, role: &Key) -> (r: usize)
    ensures
        r == count_role(ps@, role@, ps@.len() as int),
{
    let n = ps.len();
    let mut count: usize = 0;
    for i in 0..n
        invariant
            n == ps@.len(),
            count == count_role(ps@, role@, i as int),
            count <= i,
    {
        if ps[i].role.same_key(role) {
            count = count + 1;
        }
    }
    count
}

fn push_duplicate_issue(report: &mut RelationshipValidationReport, rel: &Relationship, i: usize)
    requires
        i < rel.participants@.len(),
    ensures
        final(report)@ == old(report)@ + attributed(rel.uid@, duplicate_issue(rel.participants@, i as int)),
{
    let ps = &rel.participants;
    let p = &ps[i];
    let mut dup = false;
    for j in 0..i
        invariant
            i < ps@.len(),
            *p == ps@[i as int],
            dup == exists|k: int| 0 <= k < j && identity(#[trigger] ps@[k]) == identity(ps@[i as int]),
    {
        if same_participant(&ps[j], p) {
            dup = true;
        }
    }
    if dup {
        let slot = match &p.slot {
            Some(s) => Some(s.clone()),
            None => None,
        };
        report.push(
            Some(rel.uid),
            RelationshipValidationIssueKind::DuplicateParticipant { entity: p.entity, role: p.role.clone(), slot },
        );
    }
    assert(final(report)@ =~= old(report)@ + attributed(rel.uid@, duplicate_issue(rel.participants@, i as int)));
}

fn push_same_entity_issue(
    report: &mut RelationshipValidationReport,
    rel: &Relationship,
    schema: &RelationshipSchema,
    i: usize,
)
    requires
        i < rel.participants@.len(),
    ensures
        final(report)@ == old(report)@ + attributed(
            rel.uid@,
            same_entity_issue(*schema, rel.participants@, i as int),
        ),
{
    let ps = &rel.participants;
    let p = &ps[i];
    if !schema.allow_same_entity_in_multiple_roles {
        proof {
            lemma_first_with_entity_bound(ps@, p.entity@, i as int);
        }
        match find_entity_before(ps, p.entity, i) {
            Some(j) => {
                if !ps[j].role.same_key(&p.role) {
                    report.push(Some(rel.uid), RelationshipValidationIssueKind::SameEntityInMultipleRoles(p.entity));
                }
            },
            None => {},
        }
    }
    assert(final(report)@ =~= old(report)@ + attributed(
        rel.uid@,
        same_entity_issue(*schema, rel.participants@, i as int),
    ));
}

fn push_slot_issues(
    report: &mut RelationshipValidationReport,
    uid: RelationshipUid,
    role: &ParticipantRoleSchema,
    p: &RelationshipParticipant,
)
    ensures
        final(report)@ == old(report)@ + attributed(uid@, slot_issues(*role, *p)),
{
    match &p.slot {
        None => {
            if role.slot_requirement == SlotRequirement::Required {
                report.push(
                    Some(uid),
                    RelationshipValidationIssueKind::SlotRequired { entity: p.entity, role: role.role.clone() },
                );
            }
        },
        Some(slot) => {
            if role.slot_requirement == SlotRequirement::Forbidden {
                report.push(
                    Some(uid),
                    RelationshipValidationIssueKind::SlotForbidden {
                        entity: p.entity,
                        role: role.role.clone(),
                        slot: slot.clone(),
                    },
                );
            } else if !role.allows_slot(slot) {
                let mut allowed: Vec<Key> = Vec::new();
                for t in 0..role.allowed_slots.len()
                    invariant
                        allowed@ == role.allowed_slots@.subrange(0, t as int),
                {
                    allowed.push(role.allowed_slots[t].clone());
                    assert(allowed@ =~= role.allowed_slots@.subrange(0, t + 1));
                }
                assert(allowed@ =~= role.allowed_slots@);
                report.push(
                    Some(uid),
                    RelationshipValidationIssueKind::SlotNotAllowed {
                        entity: p.entity,
                        role: role.role.clone(),
                        slot: slot.clone(),
                        allowed,
                    },
                );
            }
        },
    }
    assert(final(report)@ =~= old(report)@ + attributed(uid@, slot_issues(*role, *p)));
}

fn push_class_issues(
    report: &mut RelationshipValidationReport,
    uid: RelationshipUid,
    role: &ParticipantRoleSchema,
    entities: &EntityCatalog,
    p: &RelationshipParticipant,
)
    ensures
        final(report)@ == old(report)@ + attributed(uid@, class_issues(*role, entities@, *p)),
{
    match entities.get(p.entity) {
        Some(entity) => {
            if !role.allows_class(entity.class) {
                let mut allowed: Vec<EntityClass> = Vec::new();
                for t in 0..role.allowed_classes.len()
                    invariant
                        allowed@ == role.allowed_classes@.subrange(0, t as int),
                {
                    allowed.push(role.allowed_classes[t]);
                    assert(allowed@ =~= role.allowed_classes@.subrange(0, t + 1));
                }
                assert(allowed@ =~= role.allowed_classes@);
                report.push(
                    Some(uid),
                    RelationshipValidationIssueKind::ParticipantClassMismatch {
                        role: role.role.clone(),
                        entity: p.entity,
                        actual: entity.class,
                        allowed,
                    },
                );
            }
        },
        None => {
            report.push(Some(uid), RelationshipValidationIssueKind::MissingEntity(p.entity));
        },
    }
    assert(final(report)@ =~= old(report)@ + attributed(uid@, class_issues(*role, entities@, *p)));
}

fn push_role_issues(
    report: &mut RelationshipValidationReport,
    uid: RelationshipUid,
    schema: &RelationshipSchema,
    entities: &EntityCatalog,
    p: &RelationshipParticipant,
)
    ensures
        final(report)@ == old(report)@ + attributed(uid@, role_issues(*schema, entities@, *p)),
{
    match schema.role(p.role.as_str()) {
        None => {
            report.push(Some(uid), RelationshipValidationIssueKind::UnknownRole(p.role.clone()));
            assert(final(report)@ =~= old(report)@ + attributed(uid@, role_issues(*schema, entities@, *p)));
        },
        Some(role) => {
            push_slot_issues(report, uid, role, p);
            push_class_issues(report, uid, role, entities, p);
            proof {
                lemma_attributed_add(uid@, slot_issues(*role, *p), class_issues(*role, entities@, *p));
            }
            assert(final(report)@ =~= old(report)@ + attributed(uid@, role_issues(*schema, entities@, *p)));
        },
    }
}

/// The number of participants in role `role`.
pub open spec fn role_count(ps: Seq<RelationshipParticipant>, role: Seq<char>) -> nat {
    ps.filter(|p: RelationshipParticipant| p.role@ == role).len()
}

proof fn lemma_count_role(ps: Seq<RelationshipParticipant>, role: Seq<char>, n: int)
    requires
        0 <= n <= ps.len(),
    ensures
        count_role(ps, role, n) == role_count(ps.subrange(0, n), role),
    decreases n,
{
    reveal(Seq::filter);
    if n > 0 {
        lemma_count_role(ps, role, n - 1);
        assert(ps.subrange(0, n).drop_last() =~= ps.subrange(0, n - 1));
        assert(ps.subrange(0, n).last() == ps[n - 1]);
    } else {
        assert(ps.subrange(0, 0).len() == 0);
    }
}

proof fn lemma_cardinality_issue_present(
    roles: Seq<ParticipantRoleSchema>,
    ps: Seq<RelationshipParticipant>,
    n: int,
    i: int,
)
    requires
        0 <= i < n <= roles.len(),
    ensures
        ({
            let r = roles[i];
            let c = count_role(ps, r.role@, ps.len() as int);
            &&& c < r.minimum ==> cardinality_issues(roles, ps, n).contains(
                RelIssueKindView::MissingRequiredRole { role: r.role@, minimum: r.minimum, actual: c as usize },
            )
            &&& forall|m: usize| r.maximum == Some(m) && c > m ==> #[trigger] cardinality_issues(roles, ps, n).contains(
                RelIssueKindView::TooManyParticipantsInRole { role: r.role@, maximum: m, actual: c as usize },
            )
        }),
    decreases n,
{
    let prev = cardinality_issues(roles, ps, n - 1);
    let cur = cardinality_issues(roles, ps, n);
    assert forall|x: RelIssueKindView| prev.contains(x) implies cur.contains(x) by {
        let j = choose|j: int| 0 <= j < prev.len() && prev[j] == x;
        assert(cur[j] == prev[j]);
    }
    if i < n - 1 {
        lemma_cardinality_issue_present(roles, ps, n - 1, i);
    } else {
        let r = roles[i];
        let c = count_role(ps, r.role@, ps.len() as int);
        let lo = if c < r.minimum {
            seq![RelIssueKindView::MissingRequiredRole { role: r.role@, minimum: r.minimum, actual: c as usize }]
        } else {
            Seq::empty()
        };
        let hi = if r.maximum matches Some(m) && c > m {
            seq![
                RelIssueKindView::TooManyParticipantsInRole {
                    role: r.role@,
                    maximum: r.maximum->0,
                    actual: c as usize,
                },
            ]
        } else {
            Seq::empty()
        };
        assert(cur == prev + lo + hi);
        if c < r.minimum {
            assert(cur[prev.len() as int] == lo[0]);
        }
        assert forall|m: usize| r.maximum == Some(m) && c > m implies #[trigger] cur.contains(
            RelIssueKindView::TooManyParticipantsInRole { role: r.role@, maximum: m, actual: c as usize },
        ) by {
            assert(cur[(prev.len() + lo.len()) as int] == hi[0]);
        }
    }
}

/// Role cardinality is enforced: in a relationship whose schema is
/// registered, a role with fewer participants than its minimum is reported
/// missing, and a role with more participants than its maximum is reported
/// over-full, each with the count; so a relationship reported without
/// issues has every role within its bounds.
pub proof fn law_role_cardinality(
    rel: Relationship,
    schemas: Map<(Seq<char>, u32), RelationshipSchema>,
    entities: Map<u128, Entity>,
    context: SchemaContext,
    i: int,
)
    requires
        schemas.contains_key(rel.schema@),
        0 <= i < schemas[rel.schema@].roles@.len(),
    ensures
        ({
            let r = schemas[rel.schema@].roles@[i];
            let c = role_count(rel.participants@, r.role@);
            let report = relationship_issues(rel, schemas, entities, context);
            &&& c < r.minimum ==> report.contains(
                RelIssueView {
                    relationship: Some(rel.uid@),
                    kind: RelIssueKindView::MissingRequiredRole {
                        role: r.role@,
                        minimum: r.minimum,
                        actual: c as usize,
                    },
                },
            )
            &&& forall|m: usize| r.maximum == Some(m) && c > m ==> #[trigger] report.contains(
                RelIssueView {
                    relationship: Some(rel.uid@),
                    kind: RelIssueKindView::TooManyParticipantsInRole {
                        role: r.role@,
                        maximum: m,
                        actual: c as usize,
                    },
                },
            )
            &&& report.len() == 0 ==> c >= r.minimum && forall|m: usize| r.maximum == Some(m) ==> c <= m
        }),
{
    let s = schemas[rel.schema@];
    let ps = rel.participants@;
    let r = s.roles@[i];
    lemma_count_role(ps, r.role@, ps.len() as int);
    assert(ps.subrange(0, ps.len() as int) =~= ps);
    let c = role_count(ps, r.role@);
    lemma_cardinality_issue_present(s.roles@, ps, s.roles@.len() as int, i);
    let card = cardinality_issues(s.roles@, ps, s.roles@.len() as int);
    let kinds = relationship_kinds(rel, schemas, entities, context);
    let props = fields_payload_issues(s.properties@, s.allow_unknown_properties, rel.properties, context);
    let tk = if rel.valid_from matches Some(f) && rel.valid_to matches Some(t) && !(f@ < t@) {
        seq![RelIssueKindView::InvalidTimeRange { valid_from: rel.valid_from->0, valid_to: rel.valid_to->0 }]
    } else {
        Seq::empty()
    };
    let pk = if props.len() > 0 {
        seq![RelIssueKindView::InvalidProperties(props)]
    } else {
        Seq::<RelIssueKindView>::empty()
    };
    let pi = participants_issues(s, entities, ps, ps.len() as int);
    assert(kinds == tk + pk + pi + card);
    let off = (tk + pk + pi).len();
    let report = relationship_issues(rel, schemas, entities, context);
    assert forall|x: RelIssueKindView| card.contains(x) implies report.contains(
        RelIssueView { relationship: Some(rel.uid@), kind: x },
    ) by {
        let j = choose|j: int| 0 <= j < card.len() && card[j] == x;
        assert(kinds[off + j] == x);
        assert(report[off + j] == RelIssueView { relationship: Some(rel.uid@), kind: x });
    }
    assert(c < r.minimum ==> report.contains(
        RelIssueView {
            relationship: Some(rel.uid@),
            kind: RelIssueKindView::MissingRequiredRole { role: r.role@, minimum: r.minimum, actual: c as usize },
        },
    ));
    assert forall|m: usize| r.maximum == Some(m) && c > m implies #[trigger] report.contains(
        RelIssueView {
            relationship: Some(rel.uid@),
            kind: RelIssueKindView::TooManyParticipantsInRole { role: r.role@, maximum: m, actual: c as usize },
        },
    ) by {
        let x = RelIssueKindView::TooManyParticipantsInRole { role: r.role@, maximum: m, actual: c as usize };
        assert(card.contains(x));
    }
    if report.len() == 0 {
        if c < r.minimum {
            let x = RelIssueKindView::MissingRequiredRole { role: r.role@, minimum: r.minimum, actual: c as usize };
            assert(card.contains(x));
            assert(report.contains(RelIssueView { relationship: Some(rel.uid@), kind: x }));
        }
        assert forall|m: usize| r.maximum == Some(m) implies c <= m by {
            if c > m {
                let x = RelIssueKindView::TooManyParticipantsInRole { role: r.role@, maximum: m, actual: c as usize };
                assert(card.contains(x));
                assert(report.contains(RelIssueView { relationship: Some(rel.uid@), kind: x }));
            }
        }
    }
}

/// What one participant must satisfy in a relationship of schema `s`: its
/// role is declared; its entity exists, with a class the role admits; it
/// names a slot when the role requires one, none when the role forbids
/// slots, and only a slot the role admits.
pub open spec fn participant_fits(
    s: RelationshipSchema,
    entities: Map<u128, Entity>,
    p: RelationshipParticipant,
) -> bool {
    role_lookup(s.roles@, p.role@) matches Some(ri) && {
        let role = s.roles@[ri];
        &&& entities.contains_key(p.entity@)
        &&& allows_class_spec(role, entities[p.entity@].class)
        &&& (p.slot is None ==> role.slot_requirement != SlotRequirement::Required)
        &&& (p.slot matches Some(x) ==> role.slot_requirement != SlotRequirement::Forbidden
            && allows_slot_spec(role, x@))
    }
}

proof fn lemma_participants_issues_empty(
    s: RelationshipSchema,
    entities: Map<u128, Entity>,
    ps: Seq<RelationshipParticipant>,
    n: int,
)
    requires
        0 <= n <= ps.len(),
        participants_issues(s, entities, ps, n).len() == 0,
    ensures
        forall|i: int| 0 <= i < n ==> (#[trigger] duplicate_issue(ps, i)).len() == 0,
        forall|i: int| 0 <= i < n ==> (#[trigger] same_entity_issue(s, ps, i)).len() == 0,
        forall|i: int| 0 <= i < n ==> (#[trigger] role_issues(s, entities, ps[i])).len() == 0,
    decreases n,
{
    if n > 0 {
        let prev = participants_issues(s, entities, ps, n - 1);
        let a = duplicate_issue(ps, n - 1);
        let b = same_entity_issue(s, ps, n - 1);
        let c = role_issues(s, entities, ps[n - 1]);
        assert(participants_issues(s, entities, ps, n) == prev + a + b + c);
        assert(prev.len() == 0 && a.len() == 0 && b.len() == 0 && c.len() == 0);
        lemma_participants_issues_empty(s, entities, ps, n - 1);
    }
}

/// A relationship that validation passes is sound: its time range runs
/// forward, its properties are valid, every participant fits its role,
/// no participant is listed twice, an entity keeps one role unless the
/// schema allows more, and every role's count lies within its bounds.
pub proof fn law_valid_relationship(
    rel: Relationship,
    schemas: Map<(Seq<char>, u32), RelationshipSchema>,
    entities: Map<u128, Entity>,
    context: SchemaContext,
)
    requires
        relationship_issues(rel, schemas, entities, context).len() == 0,
    ensures
        schemas.contains_key(rel.schema@),
        ({
            let s = schemas[rel.schema@];
            let ps = rel.participants@;
            &&& (rel.valid_from is Some && rel.valid_to is Some ==> rel.valid_from->0@ < rel.valid_to->0@)
            &&& fields_payload_issues(s.properties@, s.allow_unknown_properties, rel.properties, context).len()
                == 0
            &&& forall|i: int| 0 <= i < ps.len() ==> participant_fits(s, entities, #[trigger] ps[i])
            &&& forall|i: int, j: int|
                0 <= j < i < ps.len() ==> identity(#[trigger] ps[j]) != identity(#[trigger] ps[i])
            &&& !s.allow_same_entity_in_multiple_roles ==> forall|i: int, j: int|
                0 <= j < i < ps.len() && (#[trigger] ps[j]).entity@ == (#[trigger] ps[i]).entity@ ==> ps[j].role@
                    == ps[i].role@
            &&& forall|i: int|
                0 <= i < s.roles@.len() ==> role_count(ps, (#[trigger] s.roles@[i]).role@) >= s.roles@[i].minimum
                    && (s.roles@[i].maximum matches Some(m) ==> role_count(ps, s.roles@[i].role@) <= m)
        }),
{
    let kinds = relationship_kinds(rel, schemas, entities, context);
    assert(kinds.len() == 0);
    let tk = if rel.valid_from matches Some(f) && rel.valid_to matches Some(t) && !(f@ < t@) {
        seq![RelIssueKindView::InvalidTimeRange { valid_from: rel.valid_from->0, valid_to: rel.valid_to->0 }]
    } else {
        Seq::empty()
    };
    if !schemas.contains_key(rel.schema@) {
        assert(kinds == tk.push(RelIssueKindView::UnknownSchema(rel.schema@)));
        assert(false);
    }
    let s = schemas[rel.schema@];
    let ps = rel.participants@;
    let props = fields_payload_issues(s.properties@, s.allow_unknown_properties, rel.properties, context);
    let pk = if props.len() > 0 {
        seq![RelIssueKindView::InvalidProperties(props)]
    } else {
        Seq::<RelIssueKindView>::empty()
    };
    let pi = participants_issues(s, entities, ps, ps.len() as int);
    let ci = cardinality_issues(s.roles@, ps, s.roles@.len() as int);
    assert(kinds == tk + pk + pi + ci);
    assert(tk.len() == 0 && pk.len() == 0 && pi.len() == 0);
    lemma_participants_issues_empty(s, entities, ps, ps.len() as int);
    assert forall|i: int| 0 <= i < ps.len() implies participant_fits(s, entities, #[trigger] ps[i]) by {
        assert(role_issues(s, entities, ps[i]).len() == 0);
        match role_lookup(s.roles@, ps[i].role@) {
            None => {},
            Some(ri) => {
                let role = s.roles@[ri];
                assert(role_issues(s, entities, ps[i]) == slot_issues(role, ps[i]) + class_issues(role, entities, ps[i]));
            },
        }
    }
    assert forall|i: int, j: int| 0 <= j < i < ps.len() implies identity(#[trigger] ps[j]) != identity(
        #[trigger] ps[i],
    ) by {
        assert(duplicate_issue(ps, i).len() == 0);
        if identity(ps[j]) == identity(ps[i]) {
            assert(exists|k: int| 0 <= k < i && identity(#[trigger] ps[k]) == identity(ps[i]));
        }
    }
    if !s.allow_same_entity_in_multiple_roles {
        assert forall|i: int, j: int|
            0 <= j < i < ps.len() && (#[trigger] ps[j]).entity@ == (#[trigger] ps[i]).entity@ implies ps[j].role@
                == ps[i].role@ by {
            let e = ps[i].entity@;
            lemma_first_with_entity_bound(ps, e, i);
            lemma_first_with_entity_bound(ps, e, j);
            assert(same_entity_issue(s, ps, i).len() == 0);
            assert(same_entity_issue(s, ps, j).len() == 0);
            // the first participant with this entity comes no later than j
            lemma_first_with_entity_exists(ps, e, j);
            let f = first_with_entity(ps, e, j + 1)->0;
            lemma_first_with_entity_stable(ps, e, j + 1, i);
            if f < j {
                lemma_first_with_entity_stable(ps, e, f + 1, j);
                lemma_first_with_entity_stable(ps, e, f + 1, j + 1);
            }
        }
    }
    assert forall|i: int| 0 <= i < s.roles@.len() implies role_count(ps, (#[trigger] s.roles@[i]).role@)
        >= s.roles@[i].minimum && (s.roles@[i].maximum matches Some(m) ==> role_count(ps, s.roles@[i].role@)
        <= m) by {
        law_role_cardinality(rel, schemas, entities, context, i);
        if let Some(m) = s.roles@[i].maximum {
            assert(role_count(ps, s.roles@[i].role@) <= m);
        }
    }
    assert(props.len() == 0);
}

proof fn lemma_first_with_entity_exists(ps: Seq<RelationshipParticipant>, e: u128, j: int)
    requires
        0 <= j < ps.len(),
        ps[j].entity@ == e,
    ensures
        first_with_entity(ps, e, j + 1) matches Some(f) && f <= j && ps[f].entity@ == e,
{
    lemma_first_with_entity_bound(ps, e, j + 1);
}

/// Validates one relationship against its registered schema and the
/// entity catalog, reporting every issue found.
pub fn validate_relationship(
    relationship: &Relationship,
    schemas: &RelationshipSchemaRegistry,
    entities: &EntityCatalog,
    context: SchemaContext,
) -> (r: RelationshipValidationReport)
    ensures
        r@ == relationship_issues(*relationship, schemas@, entities@, context),
{
    let ghost u = relationship.uid@;
    let ghost kinds = relationship_kinds(*relationship, schemas@, entities@, context);
    let mut report = RelationshipValidationReport::default();
    if let (Some(valid_from), Some(valid_to)) = (relationship.valid_from, relationship.valid_to) {
        if !valid_from.lt(valid_to) {
            report.push(
                Some(relationship.uid),
                RelationshipValidationIssueKind::InvalidTimeRange { valid_from, valid_to },
            );
        }
    }
    let ghost time = report@;
    let schema = match schemas.get(relationship.schema.key.as_str(), relationship.schema.version) {
        Some(s) => s,
        None => {
            report.push(
                Some(relationship.uid),
                RelationshipValidationIssueKind::UnknownSchema(relationship.schema.clone()),
            );
            assert(report@ =~= attributed(u, kinds));
            return report;
        },
    };
    schemas.lemma_registered();
    assert(rel_registered_at(relationship.schema@, *schema));
    let properties = schema.validate_properties(&relationship.properties, context);
    if !properties.is_valid() {
        report.push(Some(relationship.uid), RelationshipValidationIssueKind::InvalidProperties(properties));
    }
    let ghost after_props = report@;
    let ps = &relationship.participants;
    let n = ps.len();
    for i in 0..n
        invariant
            n == ps@.len(),
            u == relationship.uid@,
            *ps == relationship.participants,
            report@ == after_props + attributed(u, participants_issues(*schema, entities@, ps@, i as int)),
    {
        let ghost before = report@;
        push_duplicate_issue(&mut report, relationship, i);
        push_same_entity_issue(&mut report, relationship, schema, i);
        push_role_issues(&mut report, relationship.uid, schema, entities, &ps[i]);
        proof {
            let prev = participants_issues(*schema, entities@, ps@, i as int);
            let a = duplicate_issue(ps@, i as int);
            let b = same_entity_issue(*schema, ps@, i as int);
            let c = role_issues(*schema, entities@, ps@[i as int]);
            lemma_attributed_add(u, prev, a);
            lemma_attributed_add(u, prev + a, b);
            lemma_attributed_add(u, prev + a + b, c);
            assert(report@ =~= after_props + attributed(u, participants_issues(*schema, entities@, ps@, i + 1)));
        }
    }
    let ghost after_participants = report@;
    let m = schema.roles.len();
    for i in 0..m
        invariant
            m == schema.roles@.len(),
            u == relationship.uid@,
            *ps == relationship.participants,
            report@ == after_participants + attributed(u, cardinality_issues(schema.roles@, ps@, i as int)),
    {
        let role = &schema.roles[i];
        let actual = count_in_role(ps, &role.role);
        let ghost before = report@;
        if actual < role.minimum {
            report.push(
                Some(relationship.uid),
                RelationshipValidationIssueKind::MissingRequiredRole {
                    role: role.role.clone(),
                    minimum: role.minimum,
                    actual,
                },
            );
        }
        let ghost mid = report@;
        match role.maximum {
            Some(maximum) => {
                if actual > maximum {
                    report.push(
                        Some(relationship.uid),
                        RelationshipValidationIssueKind::TooManyParticipantsInRole {
                            role: role.role.clone(),
                            maximum,
                            actual,
                        },
                    );
                }
            },
            None => {},
        }
        proof {
            let prev = cardinality_issues(schema.roles@, ps@, i as int);
            let lo = if (actual as nat) < role.minimum {
                seq![
                    RelIssueKindView::MissingRequiredRole { role: role.role@, minimum: role.minimum, actual },
                ]
            } else {
                Seq::empty()
            };
            let hi = if role.maximum matches Some(mx) && (actual as nat) > mx {
                seq![
                    RelIssueKindView::TooManyParticipantsInRole {
                        role: role.role@,
                        maximum: role.maximum->0,
                        actual,
                    },
                ]
            } else {
                Seq::empty()
            };
            assert(cardinality_issues(schema.roles@, ps@, i + 1) =~= prev + lo + hi);
            assert(mid =~= before + attributed(u, lo));
            assert(report@ =~= mid + attributed(u, hi));
            lemma_attributed_add(u, prev, lo);
            lemma_attributed_add(u, prev + lo, hi);
        }
    }
    proof {
        let props = fields_payload_issues(
            schema.properties@,
            schema.allow_unknown_properties,
            relationship.properties,
            context,
        );
        let pk = if props.len() > 0 {
            seq![RelIssueKindView::InvalidProperties(props)]
        } else {
            Seq::<RelIssueKindView>::empty()
        };
        let tk = if relationship.valid_from matches Some(fr) && relationship.valid_to matches Some(t) && !(
        fr@ < t@) {
            seq![
                RelIssueKindView::InvalidTimeRange {
                    valid_from: relationship.valid_from->0,
                    valid_to: relationship.valid_to->0,
                },
            ]
        } else {
            Seq::empty()
        };
        assert(time =~= attributed(u, tk));
        assert(after_props =~= time + attributed(u, pk));
        let pi = participants_issues(*schema, entities@, ps@, n as int);
        let ci = cardinality_issues(schema.roles@, ps@, m as int);
        assert(kinds =~= tk + pk + pi + ci);
        lemma_attributed_add(u, tk, pk);
        lemma_attributed_add(u, tk + pk, pi);
        lemma_attributed_add(u, tk + pk + pi, ci);
    }
    report
}

} // verus!
