//! Cross-record rules over the relationships in force at one instant:
//! role exclusivity and slot capacity.
use crate::ordered_map::{OrderedKey, OrderedMap, strictly_sorted, lemma_sorted_unique};
use crate::relationship::schema::RelationshipSchemaRef;
use crate::schema::versioned::version_key_lt;
use crate::text::{lemma_seq_lt_order, seq_lt};
use crate::types::key::Key;
use crate::types::uid::{EntityUid, RelationshipUid};
use crate::relationship::validation::{RelIssueKindView, RelIssueView, RelationshipValidationIssueKind, RelationshipValidationReport, relationship_issues, uid_views, validate_relationship};
use crate::relationship::catalog::RelationshipCatalog;
use crate::relationship::registry::RelationshipSchemaRegistry;
use crate::relationship::relationship::{Relationship, RelationshipParticipant, active_at_spec, in_role};
use crate::relationship::schema::{RelationshipRule, RelationshipSchema};
use crate::entity::catalog::EntityCatalog;
use crate::entity::entity::Entity;
use crate::schema::context::SchemaContext;
use crate::types::time::SimTime;
use vstd::prelude::*;

verus! {

/// Where a role-exclusive rule counts: schema, role and entity.
#[derive(Debug)]
pub struct ExclusiveKey {
    pub schema: RelationshipSchemaRef,
    pub role: Key,
    pub entity: EntityUid,
}

impl View for ExclusiveKey {
    type V = ((Seq<char>, u32), Seq<char>, u128);

    open spec fn view(&self) -> ((Seq<char>, u32), Seq<char>, u128) {
        (self.schema@, self.role@, self.entity@)
    }
}

proof fn lemma_version_key_order(a: (Seq<char>, u32), b: (Seq<char>, u32), c: (Seq<char>, u32))
    ensures
        !version_key_lt(a, a),
        version_key_lt(a, b) && version_key_lt(b, c) ==> version_key_lt(a, c),
        a == b || version_key_lt(a, b) || version_key_lt(b, a),
        !(version_key_lt(a, b) && version_key_lt(b, a)),
{
    lemma_seq_lt_order(a.0, b.0, c.0);
    lemma_seq_lt_order(a.0, a.0, a.0);
    lemma_seq_lt_order(b.0, b.0, b.0);
    lemma_seq_lt_order(a.0, b.0, a.0);
    lemma_seq_lt_order(b.0, c.0, b.0);
}

fn schema_ref_lt(a: &RelationshipSchemaRef, b: &RelationshipSchemaRef) -> (r: bool)
    ensures
        r == version_key_lt(a@, b@),
{
    if a.key.precedes(&b.key) {
        true
    } else if a.key.same_key(&b.key) {
        a.version < b.version
    } else {
        false
    }
}

fn schema_ref_eq(a: &RelationshipSchemaRef, b: &RelationshipSchemaRef) -> (r: bool)
    ensures
        r == (a@ == b@),
{
    a.key.same_key(&b.key) && a.version == b.version
}

/// Schema order, then role order, then entity order.
pub open spec fn exclusive_lt(a: ((Seq<char>, u32), Seq<char>, u128), b: ((Seq<char>, u32), Seq<char>, u128)) -> bool {
    version_key_lt(a.0, b.0) || (a.0 == b.0 && (seq_lt(a.1, b.1) || (a.1 == b.1 && a.2 < b.2)))
}

impl OrderedKey for ExclusiveKey {
    open spec fn key_lt(a: ((Seq<char>, u32), Seq<char>, u128), b: ((Seq<char>, u32), Seq<char>, u128)) -> bool {
        exclusive_lt(a, b)
    }

    proof fn lemma_key_order(
        a: ((Seq<char>, u32), Seq<char>, u128),
        b: ((Seq<char>, u32), Seq<char>, u128),
        c: ((Seq<char>, u32), Seq<char>, u128),
    ) {
        lemma_version_key_order(a.0, b.0, c.0);
        lemma_seq_lt_order(a.1, b.1, c.1);
        lemma_seq_lt_order(a.1, a.1, a.1);
        lemma_seq_lt_order(a.1, b.1, a.1);
        lemma_seq_lt_order(b.1, c.1, b.1);
    }

    fn precedes(&self, other: &Self) -> (r: bool) {
        if schema_ref_lt(&self.schema, &other.schema) {
            true
        } else if !schema_ref_eq(&self.schema, &other.schema) {
            false
        } else if self.role.precedes(&other.role) {
            true
        } else if !self.role.same_key(&other.role) {
            false
        } else {
            self.entity.as_uuid() < other.entity.as_uuid()
        }
    }

    fn same_key(&self, other: &Self) -> (r: bool) {
        schema_ref_eq(&self.schema, &other.schema) && self.role.same_key(&other.role)
            && self.entity.as_uuid() == other.entity.as_uuid()
    }

    fn copy_key(&self) -> (r: Self) {
        ExclusiveKey { schema: self.schema.clone(), role: self.role.clone(), entity: self.entity }
    }
}

/// Where a slot-capacity rule counts: schema, host role, occupant role,
/// host entity, slot and capacity.
#[derive(Debug)]
pub struct SlotKey {
    pub schema: RelationshipSchemaRef,
    pub host_role: Key,
    pub occupant_role: Key,
    pub host: EntityUid,
    pub slot: Key,
    pub capacity: usize,
}

/// The view of a slot key.
pub type SlotKeyView = ((Seq<char>, u32), Seq<char>, Seq<char>, u128, Seq<char>, usize);

impl View for SlotKey {
    type V = SlotKeyView;

    open spec fn view(&self) -> SlotKeyView {
        (self.schema@, self.host_role@, self.occupant_role@, self.host@, self.slot@, self.capacity)
    }
}

/// Each component in turn, in its own order.
pub open spec fn slot_lt(a: SlotKeyView, b: SlotKeyView) -> bool {
    version_key_lt(a.0, b.0) || (a.0 == b.0 && (seq_lt(a.1, b.1) || (a.1 == b.1 && (seq_lt(a.2, b.2) || (
    a.2 == b.2 && (a.3 < b.3 || (a.3 == b.3 && (seq_lt(a.4, b.4) || (a.4 == b.4 && a.5 < b.5)))))))))
}

impl OrderedKey for SlotKey {
    open spec fn key_lt(a: SlotKeyView, b: SlotKeyView) -> bool {
        slot_lt(a, b)
    }

    proof fn lemma_key_order(a: SlotKeyView, b: SlotKeyView, c: SlotKeyView) {
        lemma_version_key_order(a.0, b.0, c.0);
        lemma_seq_lt_order(a.1, b.1, c.1);
        lemma_seq_lt_order(a.1, a.1, a.1);
        lemma_seq_lt_order(a.1, b.1, a.1);
        lemma_seq_lt_order(b.1, c.1, b.1);
        lemma_seq_lt_order(a.2, b.2, c.2);
        lemma_seq_lt_order(a.2, a.2, a.2);
        lemma_seq_lt_order(a.2, b.2, a.2);
        lemma_seq_lt_order(b.2, c.2, b.2);
        lemma_seq_lt_order(a.4, b.4, c.4);
        lemma_seq_lt_order(a.4, a.4, a.4);
        lemma_seq_lt_order(a.4, b.4, a.4);
        lemma_seq_lt_order(b.4, c.4, b.4);
    }

    fn precedes(&self, other: &Self) -> (r: bool) {
        if schema_ref_lt(&self.schema, &other.schema) {
            return true;
        }
        if !schema_ref_eq(&self.schema, &other.schema) {
            return false;
        }
        if self.host_role.precedes(&other.host_role) {
            return true;
        }
        if !self.host_role.same_key(&other.host_role) {
            return false;
        }
        if self.occupant_role.precedes(&other.occupant_role) {
            return true;
        }
        if !self.occupant_role.same_key(&other.occupant_role) {
            return false;
        }
        if self.host.as_uuid() < other.host.as_uuid() {
            return true;
        }
        if self.host.as_uuid() != other.host.as_uuid() {
            return false;
        }
        if self.slot.precedes(&other.slot) {
            return true;
        }
        if !self.slot.same_key(&other.slot) {
            return false;
        }
        self.capacity < other.capacity
    }

    fn same_key(&self, other: &Self) -> (r: bool) {
        schema_ref_eq(&self.schema, &other.schema) && self.host_role.same_key(&other.host_role)
            && self.occupant_role.same_key(&other.occupant_role) && self.host.as_uuid()
            == other.host.as_uuid() && self.slot.same_key(&other.slot) && self.capacity == other.capacity
    }

    fn copy_key(&self) -> (r: Self) {
        SlotKey {
            schema: self.schema.clone(),
            host_role: self.host_role.clone(),
            occupant_role: self.occupant_role.clone(),
            host: self.host,
            slot: self.slot.clone(),
            capacity: self.capacity,
        }
    }
}

// ----------------------------------------------------------------------
// Indexes from keys to the relationships counted there
// ----------------------------------------------------------------------
/// An index with each list of relationships taken by identity.
pub open spec fn index_view<KV>(m: Map<KV, Vec<RelationshipUid>>) -> Map<KV, Seq<u128>> {
    m.map_values(|v: Vec<RelationshipUid>| uid_views(v@))
}

/// `m` with `u` appended to the list under `k`.
pub open spec fn add_one<KV>(m: Map<KV, Seq<u128>>, k: KV, u: u128) -> Map<KV, Seq<u128>> {
    m.insert(
        k,
        if m.contains_key(k) {
            m[k]
        } else {
            Seq::empty()
        }.push(u),
    )
}

/// `m` with `u` appended under each of `keys`, in order.
pub open spec fn add_all<KV>(m: Map<KV, Seq<u128>>, keys: Seq<KV>, u: u128) -> Map<KV, Seq<u128>>
    decreases keys.len(),
{
    if keys.len() == 0 {
        m
    } else {
        add_one(add_all(m, keys.drop_last(), u), keys.last(), u)
    }
}

/// The keys of `d` in increasing order.
pub open spec fn sorted_keys<K: OrderedKey>(d: Set<K::V>) -> Seq<K::V> {
    choose|s: Seq<K::V>| strictly_sorted::<K>(s) && s.to_set() == d
}

/// Appends `u` to the list under `k`.
pub fn index_push<K: OrderedKey>(index: &mut OrderedMap<K, Vec<RelationshipUid>>, k: K, u: RelationshipUid)
    ensures
        index_view(final(index)@) == add_one(index_view(old(index)@), k@, u@),
{
    let mut list = match index.remove(&k) {
        Some(v) => v,
        None => Vec::new(),
    };
    let ghost before = list@;
    list.push(u);
    assert(uid_views(list@) =~= uid_views(before).push(u@));
    index.insert(k, list);
    proof {
        if !old(index)@.contains_key(k@) {
            assert(uid_views(before) =~= Seq::<u128>::empty());
        }
        assert(index_view(index@) =~= add_one(index_view(old(index)@), k@, u@));
    }
}

/// The keys of an index, in increasing order.
pub proof fn lemma_sorted_keys<K: OrderedKey, V>(m: OrderedMap<K, V>)
    requires
        strictly_sorted::<K>(m.keys()),
    ensures
        sorted_keys::<K>(m@.dom()) == m.keys(),
{
    m.lemma_view();
    let s = sorted_keys::<K>(m@.dom());
    assert(strictly_sorted::<K>(m.keys()) && m.keys().to_set() == m@.dom());
    assert(strictly_sorted::<K>(s) && s.to_set() == m@.dom());
    assert forall|k: K::V| s.contains(k) <==> m.keys().contains(k) by {
        assert(s.to_set().contains(k) == s.contains(k));
        assert(m.keys().to_set().contains(k) == m.keys().contains(k));
    }
    lemma_sorted_unique::<K>(s, m.keys());
}

// ----------------------------------------------------------------------
// What each relationship contributes to the indexes
// ----------------------------------------------------------------------
/// The view of an exclusivity key.
pub type ExclusiveKeyView = ((Seq<char>, u32), Seq<char>, u128);

/// The exclusivity keys one rule gives for `rel`: one per participant in
/// the rule's role.
pub open spec fn exclusive_rule_keys(rel: Relationship, rule: RelationshipRule) -> Seq<ExclusiveKeyView> {
    match rule {
        RelationshipRule::RoleExclusive { role } => in_role(rel.participants@, role@).map_values(
            |p: RelationshipParticipant| (rel.schema@, role@, p.entity@),
        ),
        RelationshipRule::SlotCapacity { .. } => Seq::empty(),
    }
}

/// The exclusivity keys of the first `n` rules, in order.
pub open spec fn exclusive_keys(rel: Relationship, rules: Seq<RelationshipRule>, n: int) -> Seq<
    ExclusiveKeyView,
>
    decreases n,
{
    if n <= 0 {
        Seq::empty()
    } else {
        exclusive_keys(rel, rules, n - 1) + exclusive_rule_keys(rel, rules[n - 1])
    }
}

/// The slot keys of the first `n` occupants: one per occupant that names a slot.
pub open spec fn occupant_keys(
    rel: Relationship,
    host_role: Seq<char>,
    occupant_role: Seq<char>,
    capacity: usize,
    host: u128,
    occupants: Seq<RelationshipParticipant>,
    n: int,
) -> Seq<SlotKeyView>
    decreases n,
{
    if n <= 0 {
        Seq::empty()
    } else {
        let prev = occupant_keys(rel, host_role, occupant_role, capacity, host, occupants, n - 1);
        match occupants[n - 1].slot {
            Some(slot) => prev.push((rel.schema@, host_role, occupant_role, host, slot@, capacity)),
            None => prev,
        }
    }
}

/// The slot keys one rule gives for `rel`: only with exactly one host.
pub open spec fn slot_rule_keys(rel: Relationship, rule: RelationshipRule) -> Seq<SlotKeyView> {
    match rule {
        RelationshipRule::RoleExclusive { .. } => Seq::empty(),
        RelationshipRule::SlotCapacity { host_role, occupant_role, capacity } => {
            let hosts = in_role(rel.participants@, host_role@);
            let occupants = in_role(rel.participants@, occupant_role@);
            if hosts.len() == 1 {
                occupant_keys(
                    rel,
                    host_role@,
                    occupant_role@,
                    capacity,
                    hosts[0].entity@,
                    occupants,
                    occupants.len() as int,
                )
            } else {
                Seq::empty()
            }
        },
    }
}

/// The slot keys of the first `n` rules, in order.
pub open spec fn slot_keys(rel: Relationship, rules: Seq<RelationshipRule>, n: int) -> Seq<SlotKeyView>
    decreases n,
{
    if n <= 0 {
        Seq::empty()
    } else {
        slot_keys(rel, rules, n - 1) + slot_rule_keys(rel, rules[n - 1])
    }
}

/// The exclusivity index over the first `n` relationships: each counted
/// once under each of its keys, however many of its participants give that
/// key; relationships with no registered schema left out.
pub open spec fn exclusive_index(
    actives: Seq<Relationship>,
    schemas: Map<(Seq<char>, u32), RelationshipSchema>,
    n: int,
) -> Map<ExclusiveKeyView, Seq<u128>>
    decreases n,
{
    if n <= 0 {
        Map::empty()
    } else {
        let prev = exclusive_index(actives, schemas, n - 1);
        let rel = actives[n - 1];
        if schemas.contains_key(rel.schema@) {
            let s = schemas[rel.schema@];
            add_all(prev, distinct_keys(exclusive_keys(rel, s.rules@, s.rules@.len() as int)), rel.uid@)
        } else {
            prev
        }
    }
}

/// The slot index over the first `n` relationships: each counted once
/// under each of its keys, relationships with no registered schema left out.
pub open spec fn slot_index(
    actives: Seq<Relationship>,
    schemas: Map<(Seq<char>, u32), RelationshipSchema>,
    n: int,
) -> Map<SlotKeyView, Seq<u128>>
    decreases n,
{
    if n <= 0 {
        Map::empty()
    } else {
        let prev = slot_index(actives, schemas, n - 1);
        let rel = actives[n - 1];
        if schemas.contains_key(rel.schema@) {
            let s = schemas[rel.schema@];
            add_all(prev, distinct_keys(slot_keys(rel, s.rules@, s.rules@.len() as int)), rel.uid@)
        } else {
            prev
        }
    }
}

/// One conflict for each of the first `n` keys `ks` under which more than
/// one relationship is counted.
pub open spec fn exclusive_conflicts_upto(
    ks: Seq<ExclusiveKeyView>,
    index: Map<ExclusiveKeyView, Seq<u128>>,
    n: int,
) -> Seq<RelIssueView>
    decreases n,
{
    if n <= 0 {
        Seq::empty()
    } else {
        let prev = exclusive_conflicts_upto(ks, index, n - 1);
        let k = ks[n - 1];
        if index[k].len() > 1 {
            prev.push(
                RelIssueView {
                    relationship: None,
                    kind: RelIssueKindView::RoleExclusiveConflict {
                        schema: k.0,
                        role: k.1,
                        entity: k.2,
                        relationships: index[k],
                    },
                },
            )
        } else {
            prev
        }
    }
}

/// One excess for each of the first `n` keys `ks` under which more
/// relationships are counted than the key's capacity.
pub open spec fn slot_conflicts_upto(ks: Seq<SlotKeyView>, index: Map<SlotKeyView, Seq<u128>>, n: int) -> Seq<
    RelIssueView,
>
    decreases n,
{
    if n <= 0 {
        Seq::empty()
    } else {
        let prev = slot_conflicts_upto(ks, index, n - 1);
        let k = ks[n - 1];
        if index[k].len() > k.5 {
            prev.push(
                RelIssueView {
                    relationship: None,
                    kind: RelIssueKindView::SlotCapacityExceeded {
                        schema: k.0,
                        host: k.3,
                        slot: k.4,
                        capacity: k.5,
                        actual: index[k].len() as usize,
                        relationships: index[k],
                    },
                },
            )
        } else {
            prev
        }
    }
}

/// The issues of the first `n` relationships, one after another.
pub open spec fn each_relationship_issues(
    actives: Seq<Relationship>,
    schemas: Map<(Seq<char>, u32), RelationshipSchema>,
    entities: Map<u128, Entity>,
    context: SchemaContext,
    n: int,
) -> Seq<RelIssueView>
    decreases n,
{
    if n <= 0 {
        Seq::empty()
    } else {
        each_relationship_issues(actives, schemas, entities, context, n - 1) + relationship_issues(
            actives[n - 1],
            schemas,
            entities,
            context,
        )
    }
}

/// The relationships of `all` in force at `time`, in order.
pub open spec fn in_force(all: Seq<Relationship>, time: SimTime) -> Seq<Relationship> {
    all.filter(|x: Relationship| active_at_spec(x.valid_from, x.valid_to, time))
}

/// Every issue of the relationships of `all` in force at `time`: each
/// relationship's own issues, then role-exclusivity conflicts in key order,
/// then slot-capacity excesses in key order.
pub open spec fn active_issues(
    all: Seq<Relationship>,
    time: SimTime,
    schemas: Map<(Seq<char>, u32), RelationshipSchema>,
    entities: Map<u128, Entity>,
    context: SchemaContext,
) -> Seq<RelIssueView> {
    let actives = in_force(all, time);
    let n = actives.len() as int;
    let ex = exclusive_index(actives, schemas, n);
    let sl = slot_index(actives, schemas, n);
    let exk = sorted_keys::<ExclusiveKey>(ex.dom());
    let slk = sorted_keys::<SlotKey>(sl.dom());
    each_relationship_issues(actives, schemas, entities, context, n) + exclusive_conflicts_upto(
        exk,
        ex,
        exk.len() as int,
    ) + slot_conflicts_upto(slk, sl, slk.len() as int)
}

/// `keys` with each key kept only where it first occurs.
pub open spec fn distinct_keys<KV>(keys: Seq<KV>) -> Seq<KV>
    decreases keys.len(),
{
    if keys.len() == 0 {
        Seq::empty()
    } else {
        let prev = distinct_keys(keys.drop_last());
        if prev.contains(keys.last()) {
            prev
        } else {
            prev.push(keys.last())
        }
    }
}

proof fn lemma_distinct_push<KV>(ks: Seq<KV>, k: KV)
    ensures
        distinct_keys(ks.push(k)) == if distinct_keys(ks).contains(k) {
            distinct_keys(ks)
        } else {
            distinct_keys(ks).push(k)
        },
{
    assert(ks.push(k).drop_last() =~= ks);
}

/// The keys of a list, by view.
pub open spec fn views_of<K: View>(v: Seq<K>) -> Seq<K::V> {
    v.map_values(|k: K| k@)
}

/// Whether `v` holds a key equal to `k`.
fn holds_key<K: OrderedKey>(v: &Vec<K>, k: &K) -> (r: bool)
    ensures
        r == views_of(v@).contains(k@),
{
    for i in 0..v.len()
        invariant
            forall|j: int| 0 <= j < i ==> v@[j]@ != k@,
    {
        if v[i].same_key(k) {
            assert(views_of(v@)[i as int] == k@);
            return true;
        }
    }
    proof {
        if views_of(v@).contains(k@) {
            let j = choose|j: int| 0 <= j < views_of(v@).len() && views_of(v@)[j] == k@;
            assert(v@[j]@ == k@);
        }
    }
    false
}

/// Counts `rel` under `k` unless it is already counted there; `taken`
/// holds the keys it is counted under.
fn count_once<K: OrderedKey>(
    index: &mut OrderedMap<K, Vec<RelationshipUid>>,
    taken: &mut Vec<K>,
    k: K,
    u: RelationshipUid,
    Ghost(base): Ghost<Map<K::V, Seq<u128>>>,
    Ghost(ks): Ghost<Seq<K::V>>,
)
    requires
        views_of(old(taken)@) == distinct_keys(ks),
        index_view(old(index)@) == add_all(base, distinct_keys(ks), u@),
    ensures
        views_of(final(taken)@) == distinct_keys(ks.push(k@)),
        index_view(final(index)@) == add_all(base, distinct_keys(ks.push(k@)), u@),
{
    proof {
        lemma_distinct_push(ks, k@);
    }
    if !holds_key(taken, &k) {
        let ghost before = taken@;
        taken.push(k.copy_key());
        assert(views_of(taken@) =~= views_of(before).push(k@));
        proof {
            lemma_add_all_push(base, distinct_keys(ks), k@, u@);
        }
        index_push(index, k, u);
    }
}

proof fn lemma_add_all_push<KV>(m: Map<KV, Seq<u128>>, ks: Seq<KV>, k: KV, u: u128)
    ensures
        add_all(m, ks.push(k), u) == add_one(add_all(m, ks, u), k, u),
{
    assert(ks.push(k).drop_last() =~= ks);
}

proof fn lemma_distinct_keys<KV>(ks: Seq<KV>)
    ensures
        distinct_keys(ks).no_duplicates(),
        forall|x: KV| distinct_keys(ks).contains(x) <==> ks.contains(x),
    decreases ks.len(),
{
    if ks.len() > 0 {
        let t = ks.drop_last();
        let c = ks.last();
        lemma_distinct_keys(t);
        let d = distinct_keys(t);
        assert(distinct_keys(ks) == if d.contains(c) { d } else { d.push(c) });
        assert forall|x: KV| ks.contains(x) <==> (t.contains(x) || x == c) by {
            if t.contains(x) {
                let j = choose|j: int| 0 <= j < t.len() && t[j] == x;
                assert(ks[j] == t[j]);
            }
            if ks.contains(x) && x != c {
                let j = choose|j: int| 0 <= j < ks.len() && ks[j] == x;
                assert(j != ks.len() - 1);
                assert(t[j] == ks[j]);
            }
            if x == c {
                assert(ks[ks.len() - 1] == x);
            }
        }
        if !d.contains(c) {
            let e = d.push(c);
            assert forall|x: KV| e.contains(x) <==> (d.contains(x) || x == c) by {
                if d.contains(x) {
                    let j = choose|j: int| 0 <= j < d.len() && d[j] == x;
                    assert(e[j] == d[j]);
                }
                if e.contains(x) && x != c {
                    let j = choose|j: int| 0 <= j < e.len() && e[j] == x;
                    assert(j != e.len() - 1);
                    assert(d[j] == e[j]);
                }
                if x == c {
                    assert(e[e.len() - 1] == x);
                }
            }
            assert(e.no_duplicates()) by {
                assert forall|i: int, j: int| 0 <= i < e.len() && 0 <= j < e.len() && i != j implies e[i] != e[j] by {
                    if i < d.len() && j < d.len() {
                        assert(e[i] == d[i] && e[j] == d[j]);
                    } else if i < d.len() {
                        assert(e[i] == d[i]);
                        assert(d.contains(d[i]));
                    } else {
                        assert(e[j] == d[j]);
                        assert(d.contains(d[j]));
                    }
                }
            }
        }
    }
}

/// The list under `k` in `m`, empty when `k` is absent.
pub open spec fn entry<KV>(m: Map<KV, Seq<u128>>, k: KV) -> Seq<u128> {
    if m.contains_key(k) {
        m[k]
    } else {
        Seq::empty()
    }
}

proof fn lemma_add_all_at<KV>(m: Map<KV, Seq<u128>>, ks: Seq<KV>, u: u128, k: KV)
    requires
        ks.no_duplicates(),
        forall|x: KV| #[trigger] m.contains_key(x) ==> m[x].len() > 0,
    ensures
        forall|x: KV| #[trigger] add_all(m, ks, u).contains_key(x) ==> add_all(m, ks, u)[x].len() > 0,
        add_all(m, ks, u).contains_key(k) == (entry(add_all(m, ks, u), k).len() > 0),
        entry(add_all(m, ks, u), k) == if ks.contains(k) {
            entry(m, k).push(u)
        } else {
            entry(m, k)
        },
    decreases ks.len(),
{
    if ks.len() == 0 {
        assert(add_all(m, ks, u) == m);
        if m.contains_key(k) {
            assert(m[k].len() > 0);
        }
        assert(!ks.contains(k));
    } else {
        let t = ks.drop_last();
        let c = ks.last();
        assert(t.no_duplicates());
        lemma_add_all_at(m, t, u, k);
        lemma_add_all_at(m, t, u, c);
        let p = add_all(m, t, u);
        let q = add_all(m, ks, u);
        assert(q == add_one(p, c, u));
        assert(ks =~= t.push(c));
        assert(forall|x: KV| #[trigger] q.contains_key(x) ==> q[x].len() > 0) by {
            assert forall|x: KV| #[trigger] q.contains_key(x) implies q[x].len() > 0 by {
                if x != c {
                    assert(p.contains_key(x));
                }
            }
        }
        if k == c {
            assert(!t.contains(k)) by {
                if t.contains(k) {
                    let j = choose|j: int| 0 <= j < t.len() && t[j] == k;
                    assert(ks[j] == k && ks[ks.len() - 1] == k);
                }
            }
            assert(ks[ks.len() - 1] == k);
            assert(q.contains_key(k));
            assert(entry(q, k) == entry(p, k).push(u));
        } else {
            assert(entry(q, k) == entry(p, k));
            assert(q.contains_key(k) == p.contains_key(k));
            if t.contains(k) {
                let j = choose|j: int| 0 <= j < t.len() && t[j] == k;
                assert(ks[j] == k);
            }
            if ks.contains(k) {
                let j = choose|j: int| 0 <= j < ks.len() && ks[j] == k;
                assert(j < t.len());
                assert(t[j] == k);
            }
        }
    }
}

/// Whether the registered schema of `rel` gives it the exclusivity key `k`.
pub open spec fn gives_exclusive_key(
    rel: Relationship,
    schemas: Map<(Seq<char>, u32), RelationshipSchema>,
    k: ExclusiveKeyView,
) -> bool {
    schemas.contains_key(rel.schema@) && exclusive_keys(
        rel,
        schemas[rel.schema@].rules@,
        schemas[rel.schema@].rules@.len() as int,
    ).contains(k)
}

/// Whether the registered schema of `rel` gives it the slot key `k`.
pub open spec fn gives_slot_key(
    rel: Relationship,
    schemas: Map<(Seq<char>, u32), RelationshipSchema>,
    k: SlotKeyView,
) -> bool {
    schemas.contains_key(rel.schema@) && slot_keys(
        rel,
        schemas[rel.schema@].rules@,
        schemas[rel.schema@].rules@.len() as int,
    ).contains(k)
}

/// The identities, in order, of the first `n` relationships whose schema
/// gives them the exclusivity key `k`.
pub open spec fn exclusive_holders(
    actives: Seq<Relationship>,
    schemas: Map<(Seq<char>, u32), RelationshipSchema>,
    k: ExclusiveKeyView,
    n: int,
) -> Seq<u128>
    decreases n,
{
    if n <= 0 {
        Seq::empty()
    } else if gives_exclusive_key(actives[n - 1], schemas, k) {
        exclusive_holders(actives, schemas, k, n - 1).push(actives[n - 1].uid@)
    } else {
        exclusive_holders(actives, schemas, k, n - 1)
    }
}

/// The identities, in order, of the first `n` relationships whose schema
/// gives them the slot key `k`.
pub open spec fn slot_holders(
    actives: Seq<Relationship>,
    schemas: Map<(Seq<char>, u32), RelationshipSchema>,
    k: SlotKeyView,
    n: int,
) -> Seq<u128>
    decreases n,
{
    if n <= 0 {
        Seq::empty()
    } else if gives_slot_key(actives[n - 1], schemas, k) {
        slot_holders(actives, schemas, k, n - 1).push(actives[n - 1].uid@)
    } else {
        slot_holders(actives, schemas, k, n - 1)
    }
}

/// Each relationship is counted once under each exclusivity key it has,
/// however many of its participants give that key: the index lists under
/// `k` exactly the relationships that have `k`, in their order, and holds
/// `k` only when one does.
pub proof fn law_exclusive_index_counts_relationships(
    actives: Seq<Relationship>,
    schemas: Map<(Seq<char>, u32), RelationshipSchema>,
    k: ExclusiveKeyView,
    n: int,
)
    requires
        0 <= n <= actives.len(),
    ensures
        forall|x: ExclusiveKeyView| #[trigger] exclusive_index(actives, schemas, n).contains_key(x)
            ==> exclusive_index(actives, schemas, n)[x].len() > 0,
        exclusive_index(actives, schemas, n).contains_key(k) == (exclusive_holders(actives, schemas, k, n).len()
            > 0),
        entry(exclusive_index(actives, schemas, n), k) == exclusive_holders(actives, schemas, k, n),
    decreases n,
{
    if n > 0 {
        law_exclusive_index_counts_relationships(actives, schemas, k, n - 1);
        let rel = actives[n - 1];
        if schemas.contains_key(rel.schema@) {
            let ks = exclusive_keys(rel, schemas[rel.schema@].rules@, schemas[rel.schema@].rules@.len() as int);
            lemma_distinct_keys(ks);
            lemma_add_all_at(exclusive_index(actives, schemas, n - 1), distinct_keys(ks), rel.uid@, k);
        }
    } else {
        assert(entry(exclusive_index(actives, schemas, n), k) =~= Seq::<u128>::empty());
    }
}

/// Each relationship is counted once under each slot key it has: the index
/// lists under `k` exactly the relationships that have `k`, in their order,
/// and holds `k` only when one does.
pub proof fn law_slot_index_counts_relationships(
    actives: Seq<Relationship>,
    schemas: Map<(Seq<char>, u32), RelationshipSchema>,
    k: SlotKeyView,
    n: int,
)
    requires
        0 <= n <= actives.len(),
    ensures
        forall|x: SlotKeyView| #[trigger] slot_index(actives, schemas, n).contains_key(x)
            ==> slot_index(actives, schemas, n)[x].len() > 0,
        slot_index(actives, schemas, n).contains_key(k) == (slot_holders(actives, schemas, k, n).len() > 0),
        entry(slot_index(actives, schemas, n), k) == slot_holders(actives, schemas, k, n),
    decreases n,
{
    if n > 0 {
        law_slot_index_counts_relationships(actives, schemas, k, n - 1);
        let rel = actives[n - 1];
        if schemas.contains_key(rel.schema@) {
            let ks = slot_keys(rel, schemas[rel.schema@].rules@, schemas[rel.schema@].rules@.len() as int);
            lemma_distinct_keys(ks);
            lemma_add_all_at(slot_index(actives, schemas, n - 1), distinct_keys(ks), rel.uid@, k);
        }
    } else {
        assert(entry(slot_index(actives, schemas, n), k) =~= Seq::<u128>::empty());
    }
}

/// Identities strictly increase along `rs`.
pub open spec fn ascending(rs: Seq<Relationship>) -> bool {
    forall|i: int, j: int| 0 <= i < j < rs.len() ==> (#[trigger] rs[i]).uid@ < (#[trigger] rs[j]).uid@
}

proof fn lemma_in_force(all: Seq<Relationship>, time: SimTime)
    requires
        ascending(all),
    ensures
        ascending(in_force(all, time)),
        forall|x: Relationship| #[trigger] in_force(all, time).contains(x) <==> (all.contains(x)
            && active_at_spec(x.valid_from, x.valid_to, time)),
    decreases all.len(),
{
    reveal(Seq::filter);
    if all.len() > 0 {
        let t = all.drop_last();
        let c = all.last();
        assert(ascending(t)) by {
            assert forall|i: int, j: int| 0 <= i < j < t.len() implies (#[trigger] t[i]).uid@ < (
            #[trigger] t[j]).uid@ by {
                assert(t[i] == all[i] && t[j] == all[j]);
            }
        }
        lemma_in_force(t, time);
        let f = in_force(t, time);
        assert(in_force(all, time) == if active_at_spec(c.valid_from, c.valid_to, time) {
            f.push(c)
        } else {
            f
        });
        assert forall|x: Relationship| all.contains(x) <==> (t.contains(x) || x == c) by {
            if t.contains(x) {
                let j = choose|j: int| 0 <= j < t.len() && t[j] == x;
                assert(all[j] == t[j]);
            }
            if all.contains(x) && x != c {
                let j = choose|j: int| 0 <= j < all.len() && all[j] == x;
                assert(j != all.len() - 1);
                assert(t[j] == all[j]);
            }
            if x == c {
                assert(all[all.len() - 1] == x);
            }
        }
        if active_at_spec(c.valid_from, c.valid_to, time) {
            let e = f.push(c);
            assert forall|x: Relationship| e.contains(x) <==> (f.contains(x) || x == c) by {
                if f.contains(x) {
                    let j = choose|j: int| 0 <= j < f.len() && f[j] == x;
                    assert(e[j] == f[j]);
                }
                if e.contains(x) && x != c {
                    let j = choose|j: int| 0 <= j < e.len() && e[j] == x;
                    assert(j != e.len() - 1);
                    assert(f[j] == e[j]);
                }
                if x == c {
                    assert(e[e.len() - 1] == x);
                }
            }
            assert forall|i: int, j: int| 0 <= i < j < e.len() implies (#[trigger] e[i]).uid@ < (
            #[trigger] e[j]).uid@ by {
                if j < f.len() {
                    assert(e[i] == f[i] && e[j] == f[j]);
                } else {
                    assert(e[i] == f[i]);
                    assert(f.contains(f[i]));
                    let k = choose|k: int| 0 <= k < t.len() && t[k] == f[i];
                    assert(all[k] == t[k]);
                    assert(all[k].uid@ < all[all.len() - 1].uid@);
                }
            }
        }
    }
}

proof fn lemma_each_relationship_issues_attributed(
    actives: Seq<Relationship>,
    schemas: Map<(Seq<char>, u32), RelationshipSchema>,
    entities: Map<u128, Entity>,
    context: SchemaContext,
    n: int,
)
    ensures
        forall|i: int|
            0 <= i < each_relationship_issues(actives, schemas, entities, context, n).len() ==> (
            #[trigger] each_relationship_issues(actives, schemas, entities, context, n)[i]).relationship is Some,
    decreases n,
{
    if n > 0 {
        lemma_each_relationship_issues_attributed(actives, schemas, entities, context, n - 1);
        let a = each_relationship_issues(actives, schemas, entities, context, n - 1);
        let b = relationship_issues(actives[n - 1], schemas, entities, context);
        assert forall|i: int| 0 <= i < (a + b).len() implies (#[trigger] (a + b)[i]).relationship is Some by {
            if i >= a.len() {
                assert((a + b)[i] == b[i - a.len()]);
            }
        }
    }
}

/// The conflict reported for the exclusivity key `k` with the relationships `rs`.
pub open spec fn exclusive_conflict(k: ExclusiveKeyView, rs: Seq<u128>) -> RelIssueView {
    RelIssueView {
        relationship: None,
        kind: RelIssueKindView::RoleExclusiveConflict { schema: k.0, role: k.1, entity: k.2, relationships: rs },
    }
}

proof fn lemma_exclusive_conflicts(ks: Seq<ExclusiveKeyView>, ex: Map<ExclusiveKeyView, Seq<u128>>, n: int)
    requires
        0 <= n <= ks.len(),
    ensures
        forall|i: int|
            0 <= i < exclusive_conflicts_upto(ks, ex, n).len() ==> exists|j: int|
                0 <= j < n && ex[ks[j]].len() > 1 && #[trigger] exclusive_conflicts_upto(ks, ex, n)[i]
                    == exclusive_conflict(ks[j], ex[ks[j]]),
        forall|j: int|
            0 <= j < n && ex[ks[j]].len() > 1 ==> exclusive_conflicts_upto(ks, ex, n).contains(
                exclusive_conflict(#[trigger] ks[j], ex[ks[j]]),
            ),
    decreases n,
{
    if n > 0 {
        lemma_exclusive_conflicts(ks, ex, n - 1);
        let prev = exclusive_conflicts_upto(ks, ex, n - 1);
        let k = ks[n - 1];
        if ex[k].len() > 1 {
            let cur = prev.push(exclusive_conflict(k, ex[k]));
            assert(exclusive_conflicts_upto(ks, ex, n) == cur);
            assert forall|i: int| 0 <= i < cur.len() implies exists|j: int|
                0 <= j < n && ex[ks[j]].len() > 1 && #[trigger] cur[i] == exclusive_conflict(ks[j], ex[ks[j]]) by {
                if i < prev.len() {
                    assert(cur[i] == prev[i]);
                } else {
                    assert(cur[i] == exclusive_conflict(ks[n - 1], ex[ks[n - 1]]));
                }
            }
            assert forall|j: int| 0 <= j < n && ex[ks[j]].len() > 1 implies cur.contains(
                exclusive_conflict(#[trigger] ks[j], ex[ks[j]]),
            ) by {
                if j < n - 1 {
                    let i = choose|i: int| 0 <= i < prev.len() && prev[i] == exclusive_conflict(ks[j], ex[ks[j]]);
                    assert(cur[i] == prev[i]);
                } else {
                    assert(cur[cur.len() - 1] == exclusive_conflict(ks[j], ex[ks[j]]));
                }
            }
        }
    }
}

proof fn lemma_slot_conflicts_kind(ks: Seq<SlotKeyView>, sl: Map<SlotKeyView, Seq<u128>>, n: int)
    ensures
        forall|i: int|
            0 <= i < slot_conflicts_upto(ks, sl, n).len() ==> (#[trigger] slot_conflicts_upto(ks, sl, n)[i]).relationship
                is None && slot_conflicts_upto(ks, sl, n)[i].kind is SlotCapacityExceeded,
    decreases n,
{
    if n > 0 {
        lemma_slot_conflicts_kind(ks, sl, n - 1);
    }
}

/// The report on the relationships in force at `time` first gives, for each
/// of them in identity order, exactly its own issues, each attributed to a
/// relationship; every issue after that belongs to no single relationship
/// and is a role-exclusivity conflict or a slot-capacity excess. The
/// relationships validated are exactly those of `all` in force at `time`.
pub proof fn law_active_report_structure(
    all: Seq<Relationship>,
    time: SimTime,
    schemas: Map<(Seq<char>, u32), RelationshipSchema>,
    entities: Map<u128, Entity>,
    context: SchemaContext,
)
    requires
        ascending(all),
    ensures
        ({
            let actives = in_force(all, time);
            let first = each_relationship_issues(actives, schemas, entities, context, actives.len() as int);
            let report = active_issues(all, time, schemas, entities, context);
            &&& ascending(actives)
            &&& forall|x: Relationship| #[trigger] actives.contains(x) <==> (all.contains(x)
                && active_at_spec(x.valid_from, x.valid_to, time))
            &&& report.subrange(0, first.len() as int) == first
            &&& forall|i: int| 0 <= i < first.len() ==> (#[trigger] report[i]).relationship is Some
            &&& forall|i: int|
                first.len() <= i < report.len() ==> (#[trigger] report[i]).relationship is None && (
                report[i].kind is RoleExclusiveConflict || report[i].kind is SlotCapacityExceeded)
        }),
{
    lemma_in_force(all, time);
    let actives = in_force(all, time);
    let n = actives.len() as int;
    let first = each_relationship_issues(actives, schemas, entities, context, n);
    let ex = exclusive_index(actives, schemas, n);
    let sl = slot_index(actives, schemas, n);
    let exk = sorted_keys::<ExclusiveKey>(ex.dom());
    let slk = sorted_keys::<SlotKey>(sl.dom());
    let a = exclusive_conflicts_upto(exk, ex, exk.len() as int);
    let b = slot_conflicts_upto(slk, sl, slk.len() as int);
    let report = active_issues(all, time, schemas, entities, context);
    assert(report == first + a + b);
    lemma_each_relationship_issues_attributed(actives, schemas, entities, context, n);
    lemma_exclusive_conflicts(exk, ex, exk.len() as int);
    lemma_slot_conflicts_kind(slk, sl, slk.len() as int);
    assert(report.subrange(0, first.len() as int) =~= first);
    assert forall|i: int| 0 <= i < first.len() implies (#[trigger] report[i]).relationship is Some by {
        assert(report[i] == first[i]);
    }
    assert forall|i: int| first.len() <= i < report.len() implies (#[trigger] report[i]).relationship is None && (
    report[i].kind is RoleExclusiveConflict || report[i].kind is SlotCapacityExceeded) by {
        if i < first.len() + a.len() {
            assert(report[i] == a[i - first.len()]);
        } else {
            assert(report[i] == b[i - first.len() - a.len()]);
        }
    }
}

proof fn lemma_holders_from(
    actives: Seq<Relationship>,
    schemas: Map<(Seq<char>, u32), RelationshipSchema>,
    k: ExclusiveKeyView,
    n: int,
)
    requires
        0 <= n <= actives.len(),
        ascending(actives),
    ensures
        forall|i: int|
            0 <= i < exclusive_holders(actives, schemas, k, n).len() ==> exists|j: int|
                0 <= j < n && #[trigger] exclusive_holders(actives, schemas, k, n)[i] == actives[j].uid@,
        forall|i: int, j: int|
            0 <= i < j < exclusive_holders(actives, schemas, k, n).len() ==> (#[trigger] exclusive_holders(
                actives,
                schemas,
                k,
                n,
            )[i]) < (#[trigger] exclusive_holders(actives, schemas, k, n)[j]),
    decreases n,
{
    if n > 0 {
        lemma_holders_from(actives, schemas, k, n - 1);
        let prev = exclusive_holders(actives, schemas, k, n - 1);
        if gives_exclusive_key(actives[n - 1], schemas, k) {
            let cur = prev.push(actives[n - 1].uid@);
            assert(exclusive_holders(actives, schemas, k, n) == cur);
            assert forall|i: int| 0 <= i < cur.len() implies exists|j: int|
                0 <= j < n && #[trigger] cur[i] == actives[j].uid@ by {
                if i < prev.len() {
                    assert(cur[i] == prev[i]);
                } else {
                    assert(cur[i] == actives[n - 1].uid@);
                }
            }
            assert forall|i: int, j: int| 0 <= i < j < cur.len() implies (#[trigger] cur[i]) < (#[trigger] cur[j]) by {
                assert(cur[i] == prev[i]);
                if j < prev.len() {
                    assert(cur[j] == prev[j]);
                } else {
                    let m = choose|m: int| 0 <= m < n - 1 && prev[i] == actives[m].uid@;
                    assert(actives[m].uid@ < actives[n - 1].uid@);
                }
            }
        }
    }
}

/// Under a role-exclusive rule, an entity is reported in conflict exactly
/// when more than one relationship in force has it in the rule's role;
/// the conflict lists those relationships, each once, in increasing
/// identity order.
pub proof fn law_role_exclusive_conflicts(
    all: Seq<Relationship>,
    time: SimTime,
    schemas: Map<(Seq<char>, u32), RelationshipSchema>,
    entities: Map<u128, Entity>,
    context: SchemaContext,
    k: ExclusiveKeyView,
)
    requires
        ascending(all),
    ensures
        ({
            let actives = in_force(all, time);
            let holders = exclusive_holders(actives, schemas, k, actives.len() as int);
            let report = active_issues(all, time, schemas, entities, context);
            &&& forall|i: int, j: int| 0 <= i < j < holders.len() ==> (#[trigger] holders[i]) < (#[trigger] holders[j])
            &&& holders.len() > 1 ==> report.contains(exclusive_conflict(k, holders))
            &&& forall|rs: Seq<u128>| #[trigger] report.contains(exclusive_conflict(k, rs)) ==> rs == holders
                && holders.len() > 1
        }),
{
    lemma_in_force(all, time);
    let actives = in_force(all, time);
    let n = actives.len() as int;
    let first = each_relationship_issues(actives, schemas, entities, context, n);
    let ex = exclusive_index(actives, schemas, n);
    let sl = slot_index(actives, schemas, n);
    let exk = sorted_keys::<ExclusiveKey>(ex.dom());
    let slk = sorted_keys::<SlotKey>(sl.dom());
    let a = exclusive_conflicts_upto(exk, ex, exk.len() as int);
    let b = slot_conflicts_upto(slk, sl, slk.len() as int);
    let report = active_issues(all, time, schemas, entities, context);
    let holders = exclusive_holders(actives, schemas, k, n);
    assert(report == first + a + b);
    lemma_holders_from(actives, schemas, k, n);
    law_exclusive_index_counts_relationships(actives, schemas, k, n);
    lemma_each_relationship_issues_attributed(actives, schemas, entities, context, n);
    lemma_exclusive_conflicts(exk, ex, exk.len() as int);
    lemma_slot_conflicts_kind(slk, sl, slk.len() as int);
    lemma_exclusive_index_finite(actives, schemas, n);
    lemma_sorted_keys_of::<ExclusiveKey>(ex.dom());
    if holders.len() > 1 {
        assert(ex.contains_key(k));
        assert(exk.contains(k));
        let j = choose|j: int| 0 <= j < exk.len() && exk[j] == k;
        assert(ex[exk[j]].len() > 1);
        assert(a.contains(exclusive_conflict(exk[j], ex[exk[j]])));
        let i = choose|i: int| 0 <= i < a.len() && a[i] == exclusive_conflict(k, holders);
        assert(report[first.len() + i] == a[i]);
    }
    assert forall|rs: Seq<u128>| #[trigger] report.contains(exclusive_conflict(k, rs)) implies rs == holders
        && holders.len() > 1 by {
        let i = choose|i: int| 0 <= i < report.len() && report[i] == exclusive_conflict(k, rs);
        if i < first.len() {
            assert(report[i] == first[i]);
        } else if i < first.len() + a.len() {
            let m = i - first.len();
            assert(report[i] == a[m]);
            let j = choose|j: int| 0 <= j < exk.len() && ex[exk[j]].len() > 1 && #[trigger] a[m]
                == exclusive_conflict(exk[j], ex[exk[j]]);
            assert(exk[j] == k);
            assert(exk.contains(exk[j]));
            assert(ex.contains_key(k));
        } else {
            assert(report[i] == b[i - first.len() - a.len()]);
        }
    }
}

/// `s` with `x` placed before the first key that follows it.
pub open spec fn insert_sorted<K: OrderedKey>(s: Seq<K::V>, x: K::V) -> Seq<K::V>
    decreases s.len(),
{
    if s.len() == 0 {
        seq![x]
    } else if K::key_lt(x, s[0]) {
        seq![x] + s
    } else {
        seq![s[0]] + insert_sorted::<K>(s.drop_first(), x)
    }
}

proof fn lemma_insert_sorted<K: OrderedKey>(s: Seq<K::V>, x: K::V)
    requires
        strictly_sorted::<K>(s),
        !s.contains(x),
    ensures
        strictly_sorted::<K>(insert_sorted::<K>(s, x)),
        forall|y: K::V| #[trigger] insert_sorted::<K>(s, x).contains(y) <==> (s.contains(y) || y == x),
    decreases s.len(),
{
    let r = insert_sorted::<K>(s, x);
    if s.len() == 0 {
        assert forall|y: K::V| #[trigger] r.contains(y) <==> (s.contains(y) || y == x) by {
            if r.contains(y) {
                assert(r[0] == y);
            }
            if y == x {
                assert(r[0] == y);
            }
        }
    } else if K::key_lt(x, s[0]) {
        assert forall|i: int, j: int| 0 <= i < j < r.len() implies K::key_lt(#[trigger] r[i], #[trigger] r[j]) by {
            if i == 0 {
                assert(r[j] == s[j - 1]);
                if j > 1 {
                    K::lemma_key_order(x, s[0], s[j - 1]);
                }
            } else {
                assert(r[i] == s[i - 1] && r[j] == s[j - 1]);
            }
        }
        assert forall|y: K::V| #[trigger] r.contains(y) <==> (s.contains(y) || y == x) by {
            if r.contains(y) {
                let i = choose|i: int| 0 <= i < r.len() && r[i] == y;
                if i > 0 {
                    assert(s[i - 1] == y);
                }
            }
            if s.contains(y) {
                let i = choose|i: int| 0 <= i < s.len() && s[i] == y;
                assert(r[i + 1] == y);
            }
            if y == x {
                assert(r[0] == y);
            }
        }
    } else {
        let t = s.drop_first();
        assert forall|i: int, j: int| 0 <= i < j < t.len() implies K::key_lt(#[trigger] t[i], #[trigger] t[j]) by {
            assert(t[i] == s[i + 1] && t[j] == s[j + 1]);
        }
        assert(!t.contains(x)) by {
            if t.contains(x) {
                let i = choose|i: int| 0 <= i < t.len() && t[i] == x;
                assert(s[i + 1] == x);
            }
        }
        lemma_insert_sorted::<K>(t, x);
        let q = insert_sorted::<K>(t, x);
        assert(r == seq![s[0]] + q);
        K::lemma_key_order(x, s[0], x);
        assert(s[0] != x) by {
            assert(s[0] != x || !s.contains(x));
        }
        assert(K::key_lt(s[0], x));
        assert forall|y: K::V| q.contains(y) implies K::key_lt(s[0], y) by {
            if y == x {
            } else {
                assert(t.contains(y));
                let i = choose|i: int| 0 <= i < t.len() && t[i] == y;
                assert(s[i + 1] == y);
            }
        }
        assert forall|i: int, j: int| 0 <= i < j < r.len() implies K::key_lt(#[trigger] r[i], #[trigger] r[j]) by {
            if i == 0 {
                assert(r[j] == q[j - 1]);
                assert(q.contains(q[j - 1]));
            } else {
                assert(r[i] == q[i - 1] && r[j] == q[j - 1]);
            }
        }
        assert forall|y: K::V| #[trigger] r.contains(y) <==> (s.contains(y) || y == x) by {
            if r.contains(y) {
                let i = choose|i: int| 0 <= i < r.len() && r[i] == y;
                if i == 0 {
                    assert(s[0] == y);
                } else {
                    assert(q[i - 1] == y);
                    assert(q.contains(y));
                    if y != x {
                        assert(t.contains(y));
                        let k = choose|k: int| 0 <= k < t.len() && t[k] == y;
                        assert(s[k + 1] == y);
                    }
                }
            }
            if s.contains(y) {
                let i = choose|i: int| 0 <= i < s.len() && s[i] == y;
                if i == 0 {
                    assert(r[0] == y);
                } else {
                    assert(t[i - 1] == y);
                    assert(t.contains(y));
                    assert(q.contains(y));
                    let k = choose|k: int| 0 <= k < q.len() && q[k] == y;
                    assert(r[k + 1] == y);
                }
            }
            if y == x {
                assert(q.contains(x));
                let k = choose|k: int| 0 <= k < q.len() && q[k] == x;
                assert(r[k + 1] == x);
            }
        }
    }
}

/// A finite set of keys can be listed in increasing order.
proof fn lemma_sorted_exists<K: OrderedKey>(d: Set<K::V>)
    requires
        d.finite(),
    ensures
        exists|s: Seq<K::V>| strictly_sorted::<K>(s) && s.to_set() == d,
    decreases d.len(),
{
    if d.len() == 0 {
        let s = Seq::<K::V>::empty();
        assert(d =~= Set::<K::V>::empty());
        assert(s.to_set() =~= d);
    } else {
        let x = d.choose();
        let e = d.remove(x);
        lemma_sorted_exists::<K>(e);
        let s = choose|s: Seq<K::V>| strictly_sorted::<K>(s) && s.to_set() == e;
        assert(!s.contains(x)) by {
            assert(s.to_set().contains(x) == s.contains(x));
        }
        lemma_insert_sorted::<K>(s, x);
        let r = insert_sorted::<K>(s, x);
        assert forall|y: K::V| r.to_set().contains(y) <==> d.contains(y) by {
            assert(s.to_set().contains(y) == s.contains(y));
        }
        assert(r.to_set() =~= d);
    }
}

proof fn lemma_add_all_finite<KV>(m: Map<KV, Seq<u128>>, ks: Seq<KV>, u: u128)
    requires
        m.dom().finite(),
    ensures
        add_all(m, ks, u).dom().finite(),
    decreases ks.len(),
{
    if ks.len() > 0 {
        lemma_add_all_finite(m, ks.drop_last(), u);
    }
}

proof fn lemma_exclusive_index_finite(
    actives: Seq<Relationship>,
    schemas: Map<(Seq<char>, u32), RelationshipSchema>,
    n: int,
)
    ensures
        exclusive_index(actives, schemas, n).dom().finite(),
    decreases n,
{
    if n > 0 {
        lemma_exclusive_index_finite(actives, schemas, n - 1);
        let rel = actives[n - 1];
        if schemas.contains_key(rel.schema@) {
            let s = schemas[rel.schema@];
            lemma_add_all_finite(
                exclusive_index(actives, schemas, n - 1),
                distinct_keys(exclusive_keys(rel, s.rules@, s.rules@.len() as int)),
                rel.uid@,
            );
        }
    } else {
        assert(exclusive_index(actives, schemas, n).dom() =~= Set::<ExclusiveKeyView>::empty());
    }
}

/// The sorted keys of a finite set are exactly its members.
proof fn lemma_sorted_keys_of<K: OrderedKey>(d: Set<K::V>)
    requires
        d.finite(),
    ensures
        forall|x: K::V| #[trigger] sorted_keys::<K>(d).contains(x) <==> d.contains(x),
{
    lemma_sorted_exists::<K>(d);
    let s = sorted_keys::<K>(d);
    assert forall|x: K::V| #[trigger] s.contains(x) <==> d.contains(x) by {
        assert(s.to_set().contains(x) == s.contains(x));
    }
}

proof fn lemma_slot_index_finite(
    actives: Seq<Relationship>,
    schemas: Map<(Seq<char>, u32), RelationshipSchema>,
    n: int,
)
    ensures
        slot_index(actives, schemas, n).dom().finite(),
    decreases n,
{
    if n > 0 {
        lemma_slot_index_finite(actives, schemas, n - 1);
        let rel = actives[n - 1];
        if schemas.contains_key(rel.schema@) {
            let s = schemas[rel.schema@];
            lemma_add_all_finite(
                slot_index(actives, schemas, n - 1),
                distinct_keys(slot_keys(rel, s.rules@, s.rules@.len() as int)),
                rel.uid@,
            );
        }
    } else {
        assert(slot_index(actives, schemas, n).dom() =~= Set::<SlotKeyView>::empty());
    }
}

/// The excess reported for the slot key `k` with the relationships `rs`.
pub open spec fn slot_excess(k: SlotKeyView, rs: Seq<u128>) -> RelIssueView {
    RelIssueView {
        relationship: None,
        kind: RelIssueKindView::SlotCapacityExceeded {
            schema: k.0,
            host: k.3,
            slot: k.4,
            capacity: k.5,
            actual: rs.len() as usize,
            relationships: rs,
        },
    }
}

proof fn lemma_slot_conflicts(ks: Seq<SlotKeyView>, sl: Map<SlotKeyView, Seq<u128>>, n: int)
    requires
        0 <= n <= ks.len(),
    ensures
        forall|i: int|
            0 <= i < slot_conflicts_upto(ks, sl, n).len() ==> exists|j: int|
                0 <= j < n && sl[ks[j]].len() > ks[j].5 && #[trigger] slot_conflicts_upto(ks, sl, n)[i]
                    == slot_excess(ks[j], sl[ks[j]]),
        forall|j: int|
            0 <= j < n && sl[ks[j]].len() > ks[j].5 ==> slot_conflicts_upto(ks, sl, n).contains(
                slot_excess(#[trigger] ks[j], sl[ks[j]]),
            ),
    decreases n,
{
    if n > 0 {
        lemma_slot_conflicts(ks, sl, n - 1);
        let prev = slot_conflicts_upto(ks, sl, n - 1);
        let k = ks[n - 1];
        if sl[k].len() > k.5 {
            let cur = prev.push(slot_excess(k, sl[k]));
            assert(slot_conflicts_upto(ks, sl, n) == cur);
            assert forall|i: int| 0 <= i < cur.len() implies exists|j: int|
                0 <= j < n && sl[ks[j]].len() > ks[j].5 && #[trigger] cur[i] == slot_excess(ks[j], sl[ks[j]]) by {
                if i < prev.len() {
                    assert(cur[i] == prev[i]);
                } else {
                    assert(cur[i] == slot_excess(ks[n - 1], sl[ks[n - 1]]));
                }
            }
            assert forall|j: int| 0 <= j < n && sl[ks[j]].len() > ks[j].5 implies cur.contains(
                slot_excess(#[trigger] ks[j], sl[ks[j]]),
            ) by {
                if j < n - 1 {
                    let i = choose|i: int| 0 <= i < prev.len() && prev[i] == slot_excess(ks[j], sl[ks[j]]);
                    assert(cur[i] == prev[i]);
                } else {
                    assert(cur[cur.len() - 1] == slot_excess(ks[j], sl[ks[j]]));
                }
            }
        }
    }
}

proof fn lemma_slot_holders_from(
    actives: Seq<Relationship>,
    schemas: Map<(Seq<char>, u32), RelationshipSchema>,
    k: SlotKeyView,
    n: int,
)
    requires
        0 <= n <= actives.len(),
        ascending(actives),
    ensures
        forall|i: int|
            0 <= i < slot_holders(actives, schemas, k, n).len() ==> exists|j: int|
                0 <= j < n && #[trigger] slot_holders(actives, schemas, k, n)[i] == actives[j].uid@,
        forall|i: int, j: int|
            0 <= i < j < slot_holders(actives, schemas, k, n).len() ==> (#[trigger] slot_holders(
                actives,
                schemas,
                k,
                n,
            )[i]) < (#[trigger] slot_holders(actives, schemas, k, n)[j]),
    decreases n,
{
    if n > 0 {
        lemma_slot_holders_from(actives, schemas, k, n - 1);
        let prev = slot_holders(actives, schemas, k, n - 1);
        if gives_slot_key(actives[n - 1], schemas, k) {
            let cur = prev.push(actives[n - 1].uid@);
            assert(slot_holders(actives, schemas, k, n) == cur);
            assert forall|i: int| 0 <= i < cur.len() implies exists|j: int|
                0 <= j < n && #[trigger] cur[i] == actives[j].uid@ by {
                if i < prev.len() {
                    assert(cur[i] == prev[i]);
                } else {
                    assert(cur[i] == actives[n - 1].uid@);
                }
            }
            assert forall|i: int, j: int| 0 <= i < j < cur.len() implies (#[trigger] cur[i]) < (#[trigger] cur[j]) by {
                assert(cur[i] == prev[i]);
                if j < prev.len() {
                    assert(cur[j] == prev[j]);
                } else {
                    let m = choose|m: int| 0 <= m < n - 1 && prev[i] == actives[m].uid@;
                    assert(actives[m].uid@ < actives[n - 1].uid@);
                }
            }
        }
    }
}

/// Slot capacity is enforced against the capacity the rule declares: for a
/// slot key (schema, host role, occupant role, host, slot, capacity), an
/// excess is reported exactly when more relationships in force use that
/// slot on that host than the capacity allows, and it lists those
/// relationships, each once, in increasing identity order, with their
/// number. Every excess in the report is of that kind.
pub proof fn law_slot_capacity_excesses(
    all: Seq<Relationship>,
    time: SimTime,
    schemas: Map<(Seq<char>, u32), RelationshipSchema>,
    entities: Map<u128, Entity>,
    context: SchemaContext,
    k: SlotKeyView,
)
    requires
        ascending(all),
    ensures
        ({
            let actives = in_force(all, time);
            let holders = slot_holders(actives, schemas, k, actives.len() as int);
            let report = active_issues(all, time, schemas, entities, context);
            &&& forall|i: int, j: int| 0 <= i < j < holders.len() ==> (#[trigger] holders[i]) < (#[trigger] holders[j])
            &&& holders.len() > k.5 ==> report.contains(slot_excess(k, holders))
            &&& holders.len() <= k.5 ==> !report.contains(slot_excess(k, holders))
            &&& forall|i: int|
                0 <= i < report.len() && (#[trigger] report[i]).relationship is None && report[i].kind is SlotCapacityExceeded ==> exists|
                    q: SlotKeyView,
                |
                    #![trigger slot_holders(actives, schemas, q, actives.len() as int)]
                    report[i] == slot_excess(q, slot_holders(actives, schemas, q, actives.len() as int))
                        && slot_holders(actives, schemas, q, actives.len() as int).len() > q.5
        }),
{
    lemma_in_force(all, time);
    let actives = in_force(all, time);
    let n = actives.len() as int;
    let first = each_relationship_issues(actives, schemas, entities, context, n);
    let ex = exclusive_index(actives, schemas, n);
    let sl = slot_index(actives, schemas, n);
    let exk = sorted_keys::<ExclusiveKey>(ex.dom());
    let slk = sorted_keys::<SlotKey>(sl.dom());
    let a = exclusive_conflicts_upto(exk, ex, exk.len() as int);
    let b = slot_conflicts_upto(slk, sl, slk.len() as int);
    let report = active_issues(all, time, schemas, entities, context);
    let holders = slot_holders(actives, schemas, k, n);
    assert(report == first + a + b);
    lemma_slot_holders_from(actives, schemas, k, n);
    law_slot_index_counts_relationships(actives, schemas, k, n);
    lemma_each_relationship_issues_attributed(actives, schemas, entities, context, n);
    lemma_exclusive_conflicts(exk, ex, exk.len() as int);
    lemma_slot_conflicts(slk, sl, slk.len() as int);
    lemma_slot_index_finite(actives, schemas, n);
    lemma_sorted_keys_of::<SlotKey>(sl.dom());
    if holders.len() > k.5 {
        assert(sl.contains_key(k));
        assert(slk.contains(k));
        let j = choose|j: int| 0 <= j < slk.len() && slk[j] == k;
        assert(sl[slk[j]].len() > slk[j].5);
        assert(b.contains(slot_excess(slk[j], sl[slk[j]])));
        let i = choose|i: int| 0 <= i < b.len() && b[i] == slot_excess(k, holders);
        assert(report[first.len() + a.len() + i] == b[i]);
    }
    assert forall|i: int|
        0 <= i < report.len() && (#[trigger] report[i]).relationship is None && report[i].kind is SlotCapacityExceeded implies exists|
            q: SlotKeyView,
        |
            #![trigger slot_holders(actives, schemas, q, actives.len() as int)]
            report[i] == slot_excess(q, slot_holders(actives, schemas, q, actives.len() as int))
                && slot_holders(actives, schemas, q, actives.len() as int).len() > q.5 by {
        if i < first.len() {
            assert(report[i] == first[i]);
        } else if i < first.len() + a.len() {
            let m = i - first.len();
            assert(report[i] == a[m]);
            let j = choose|j: int| 0 <= j < exk.len() && ex[exk[j]].len() > 1 && #[trigger] a[m]
                == exclusive_conflict(exk[j], ex[exk[j]]);
        } else {
            let m = i - first.len() - a.len();
            assert(report[i] == b[m]);
            let j = choose|j: int| 0 <= j < slk.len() && sl[slk[j]].len() > slk[j].5 && #[trigger] b[m]
                == slot_excess(slk[j], sl[slk[j]]);
            let q = slk[j];
            assert(slk.contains(q));
            assert(sl.contains_key(q));
            law_slot_index_counts_relationships(actives, schemas, q, n);
            assert(sl[q] == slot_holders(actives, schemas, q, n));
            assert(report[i] == slot_excess(q, slot_holders(actives, schemas, q, actives.len() as int))
                && slot_holders(actives, schemas, q, actives.len() as int).len() > q.5);
        }
    }
    if holders.len() <= k.5 {
        if report.contains(slot_excess(k, holders)) {
            let i = choose|i: int| 0 <= i < report.len() && report[i] == slot_excess(k, holders);
            assert(report[i].kind is SlotCapacityExceeded && report[i].relationship is None);
            let q = choose|q: SlotKeyView|
                #![trigger slot_holders(actives, schemas, q, actives.len() as int)]
                report[i] == slot_excess(q, slot_holders(actives, schemas, q, actives.len() as int))
                    && slot_holders(actives, schemas, q, actives.len() as int).len() > q.5;
            assert(q.5 == k.5);
            assert(slot_holders(actives, schemas, q, n) == holders);
        }
    }
}

fn copy_uids(v: &Vec<RelationshipUid>) -> (r: Vec<RelationshipUid>)
    ensures
        r@ == v@,
{
    let mut out: Vec<RelationshipUid> = Vec::new();
    for i in 0..v.len()
        invariant
            out@ == v@.subrange(0, i as int),
    {
        out.push(v[i]);
        assert(out@ =~= v@.subrange(0, i + 1));
    }
    assert(out@ =~= v@);
    out
}

/// Counts one relationship once under every key its schema's rules give.
fn index_relationship(
    exclusive: &mut OrderedMap<ExclusiveKey, Vec<RelationshipUid>>,
    slotted: &mut OrderedMap<SlotKey, Vec<RelationshipUid>>,
    rel: &Relationship,
    schema: &RelationshipSchema,
)
    ensures
        index_view(final(exclusive)@) == add_all(
            index_view(old(exclusive)@),
            distinct_keys(exclusive_keys(*rel, schema.rules@, schema.rules@.len() as int)),
            rel.uid@,
        ),
        index_view(final(slotted)@) == add_all(
            index_view(old(slotted)@),
            distinct_keys(slot_keys(*rel, schema.rules@, schema.rules@.len() as int)),
            rel.uid@,
        ),
{
    let ghost ex0 = index_view(exclusive@);
    let ghost sl0 = index_view(slotted@);
    let mut taken_ex: Vec<ExclusiveKey> = Vec::new();
    let mut taken_sl: Vec<SlotKey> = Vec::new();
    proof {
        assert(views_of(taken_ex@) =~= distinct_keys(exclusive_keys(*rel, schema.rules@, 0)));
        assert(views_of(taken_sl@) =~= distinct_keys(slot_keys(*rel, schema.rules@, 0)));
    }
    let n = schema.rules.len();
    for i in 0..n
        invariant
            n == schema.rules@.len(),
            index_view(exclusive@) == add_all(ex0, distinct_keys(exclusive_keys(*rel, schema.rules@, i as int)), rel.uid@),
            index_view(slotted@) == add_all(sl0, distinct_keys(slot_keys(*rel, schema.rules@, i as int)), rel.uid@),
            views_of(taken_ex@) == distinct_keys(exclusive_keys(*rel, schema.rules@, i as int)),
            views_of(taken_sl@) == distinct_keys(slot_keys(*rel, schema.rules@, i as int)),
    {
        let ghost exk = exclusive_keys(*rel, schema.rules@, i as int);
        let ghost slk = slot_keys(*rel, schema.rules@, i as int);
        match &schema.rules[i] {
            RelationshipRule::RoleExclusive { role } => {
                let ps = rel.participants_in_role(role.as_str());
                let ghost keys = exclusive_rule_keys(*rel, schema.rules@[i as int]);
                let m = ps.len();
                for j in 0..m
                    invariant
                        m == ps@.len(),
                        ps@.map_values(|p: &RelationshipParticipant| *p) == in_role(rel.participants@, role@),
                        keys == in_role(rel.participants@, role@).map_values(
                            |p: RelationshipParticipant| (rel.schema@, role@, p.entity@),
                        ),
                        index_view(exclusive@) == add_all(ex0, distinct_keys(exk + keys.take(j as int)), rel.uid@),
                        views_of(taken_ex@) == distinct_keys(exk + keys.take(j as int)),
                {
                    let p = ps[j];
                    let k = ExclusiveKey { schema: rel.schema.clone(), role: role.clone(), entity: p.entity };
                    proof {
                        assert(*p == in_role(rel.participants@, role@)[j as int]);
                        assert(keys.take(j + 1) =~= keys.take(j as int).push(k@));
                        assert(exk + keys.take(j + 1) =~= (exk + keys.take(j as int)).push(k@));
                    }
                    count_once(exclusive, &mut taken_ex, k, rel.uid, Ghost(ex0), Ghost(exk + keys.take(j as int)));
                }
                proof {
                    assert(keys.take(m as int) =~= keys);
                    assert(exk + keys.take(0) =~= exk);
                    assert(exclusive_keys(*rel, schema.rules@, i + 1) == exk + keys);
                    assert(slot_rule_keys(*rel, schema.rules@[i as int]) =~= Seq::<SlotKeyView>::empty());
                    assert(slot_keys(*rel, schema.rules@, i + 1) =~= slk);
                }
            },
            RelationshipRule::SlotCapacity { host_role, occupant_role, capacity } => {
                let hosts = rel.participants_in_role(host_role.as_str());
                let ghost keys = slot_rule_keys(*rel, schema.rules@[i as int]);
                proof {
                    assert(hosts@.len() == in_role(rel.participants@, host_role@).len());
                }
                if hosts.len() == 1 {
                    let host = hosts[0];
                    proof {
                        assert(*host == in_role(rel.participants@, host_role@)[0]);
                    }
                    let occupants = rel.participants_in_role(occupant_role.as_str());
                    let ghost occ = in_role(rel.participants@, occupant_role@);
                    let m = occupants.len();
                    proof {
                        assert(slk + occupant_keys(*rel, host_role@, occupant_role@, *capacity, host.entity@, occ, 0) =~= slk);
                    }
                    for j in 0..m
                        invariant
                            m == occupants@.len(),
                            occupants@.map_values(|p: &RelationshipParticipant| *p) == occ,
                            occ.len() == m,
                            index_view(slotted@) == add_all(
                                sl0,
                                distinct_keys(slk + occupant_keys(
                                    *rel,
                                    host_role@,
                                    occupant_role@,
                                    *capacity,
                                    host.entity@,
                                    occ,
                                    j as int,
                                )),
                                rel.uid@,
                            ),
                            views_of(taken_sl@) == distinct_keys(slk + occupant_keys(
                                *rel,
                                host_role@,
                                occupant_role@,
                                *capacity,
                                host.entity@,
                                occ,
                                j as int,
                            )),
                    {
                        let o = occupants[j];
                        proof {
                            assert(*o == occ[j as int]);
                        }
                        let ghost prev = occupant_keys(*rel, host_role@, occupant_role@, *capacity, host.entity@, occ, j as int);
                        match &o.slot {
                            Some(slot) => {
                                let k = SlotKey {
                                    schema: rel.schema.clone(),
                                    host_role: host_role.clone(),
                                    occupant_role: occupant_role.clone(),
                                    host: host.entity,
                                    slot: slot.clone(),
                                    capacity: *capacity,
                                };
                                proof {
                                    assert(slk + prev.push(k@) =~= (slk + prev).push(k@));
                                }
                                count_once(slotted, &mut taken_sl, k, rel.uid, Ghost(sl0), Ghost(slk + prev));
                            },
                            None => {},
                        }
                    }
                    proof {
                        assert(slot_keys(*rel, schema.rules@, i + 1) == slk + keys);
                    }
                } else {
                    proof {
                        assert(keys =~= Seq::<SlotKeyView>::empty());
                        assert(slot_keys(*rel, schema.rules@, i + 1) =~= slk);
                    }
                }
                proof {
                    assert(exclusive_rule_keys(*rel, schema.rules@[i as int]) =~= Seq::<ExclusiveKeyView>::empty());
                    assert(exclusive_keys(*rel, schema.rules@, i + 1) =~= exk);
                }
            },
        }
    }
}

impl RelationshipCatalog {
    /// Validates every relationship in force at `time`, then the
    /// cross-record exclusivity and slot-capacity rules among them.
    pub fn validate_active_at(
        &self,
        schemas: &RelationshipSchemaRegistry,
        entities: &EntityCatalog,
        time: SimTime,
        context: SchemaContext,
    ) -> (r: RelationshipValidationReport)
        ensures
            r@ == active_issues(self.in_order(), time, schemas@, entities@, context),
    {
        let active = self.active_at(time);
        let ghost actives = in_force(self.in_order(), time);
        let n = active.len();
        let mut report = RelationshipValidationReport::default();
        for i in 0..n
            invariant
                n == active@.len(),
                active@.map_values(|x: &Relationship| *x) == actives,
                report@ == each_relationship_issues(actives, schemas@, entities@, context, i as int),
        {
            let rel = active[i];
            proof {
                assert(*rel == actives[i as int]);
            }
            report.extend(validate_relationship(rel, schemas, entities, context));
        }
        let ghost first = report@;
        let mut exclusive: OrderedMap<ExclusiveKey, Vec<RelationshipUid>> = OrderedMap::new();
        let mut slotted: OrderedMap<SlotKey, Vec<RelationshipUid>> = OrderedMap::new();
        proof {
            assert(index_view(exclusive@) =~= Map::<ExclusiveKeyView, Seq<u128>>::empty());
            assert(index_view(slotted@) =~= Map::<SlotKeyView, Seq<u128>>::empty());
        }
        for i in 0..n
            invariant
                n == active@.len(),
                active@.map_values(|x: &Relationship| *x) == actives,
                index_view(exclusive@) == exclusive_index(actives, schemas@, i as int),
                index_view(slotted@) == slot_index(actives, schemas@, i as int),
        {
            let rel = active[i];
            proof {
                assert(*rel == actives[i as int]);
            }
            match schemas.get(rel.schema.key.as_str(), rel.schema.version) {
                Some(schema) => {
                    index_relationship(&mut exclusive, &mut slotted, rel, schema);
                },
                None => {},
            }
        }
        let ghost ex = exclusive_index(actives, schemas@, n as int);
        let ghost sl = slot_index(actives, schemas@, n as int);
        exclusive.lemma_sorted();
        proof {
            lemma_sorted_keys::<ExclusiveKey, Vec<RelationshipUid>>(exclusive);
            assert(index_view(exclusive@).dom() == exclusive@.dom());
        }
        let m = exclusive.len();
        for i in 0..m
            invariant
                m == exclusive.keys().len(),
                exclusive.keys().len() == exclusive.values().len(),
                index_view(exclusive@) == ex,
                forall|i: int|
                    #![trigger exclusive.keys()[i]]
                    0 <= i < exclusive.keys().len() ==> exclusive@.contains_key(exclusive.keys()[i])
                        && exclusive@[exclusive.keys()[i]] == exclusive.values()[i],
                report@ == first + exclusive_conflicts_upto(exclusive.keys(), ex, i as int),
        {
            let k = exclusive.key_at(i);
            let list = exclusive.value_at(i);
            proof {
                assert(ex[k@] == uid_views(list@));
            }
            if list.len() > 1 {
                report.push(
                    None,
                    RelationshipValidationIssueKind::RoleExclusiveConflict {
                        schema: k.schema.clone(),
                        role: k.role.clone(),
                        entity: k.entity,
                        relationships: copy_uids(list),
                    },
                );
            }
        }
        let ghost second = report@;
        slotted.lemma_sorted();
        proof {
            lemma_sorted_keys::<SlotKey, Vec<RelationshipUid>>(slotted);
            assert(index_view(slotted@).dom() == slotted@.dom());
        }
        let m2 = slotted.len();
        for i in 0..m2
            invariant
                m2 == slotted.keys().len(),
                slotted.keys().len() == slotted.values().len(),
                index_view(slotted@) == sl,
                forall|i: int|
                    #![trigger slotted.keys()[i]]
                    0 <= i < slotted.keys().len() ==> slotted@.contains_key(slotted.keys()[i])
                        && slotted@[slotted.keys()[i]] == slotted.values()[i],
                report@ == second + slot_conflicts_upto(slotted.keys(), sl, i as int),
        {
            let k = slotted.key_at(i);
            let list = slotted.value_at(i);
            proof {
                assert(sl[k@] == uid_views(list@));
            }
            if list.len() > k.capacity {
                report.push(
                    None,
                    RelationshipValidationIssueKind::SlotCapacityExceeded {
                        schema: k.schema.clone(),
                        host: k.host,
                        slot: k.slot.clone(),
                        capacity: k.capacity,
                        actual: list.len(),
                        relationships: copy_uids(list),
                    },
                );
            }
        }
        report
    }
}

} // verus!
