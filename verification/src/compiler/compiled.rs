use crate::compiler::source::Layer0Source;
use crate::entity::entity::{Entity, EntityView};
use crate::information::record::{InformationRecord, InformationRecordView};
use crate::ordered_map::{OrderedMap, deep_view};
use crate::relationship::relationship::{Relationship, RelationshipView};
use crate::store::state::{WorldState, WorldStateView, initial_view};
use crate::types::key::Key;
use crate::types::uid::{EntityUid, uuid_text};
use crate::text::join;
use vstd::prelude::*;
use vstd::string::*;

verus! {

#[derive(Debug, PartialEq, Eq)]
pub enum CompileError {
    DuplicateEntityUid(EntityUid),
    DuplicateEntityKey(Key),
    DuplicateInformationKey(Key),
}

/// The text of a compile error.
pub open spec fn compile_error_text(e: CompileError) -> Seq<char> {
    match e {
        CompileError::DuplicateEntityUid(uid) => "duplicate entity UID: "@ + uuid_text(uid@),
        CompileError::DuplicateEntityKey(key) => "duplicate entity key: "@ + key@,
        CompileError::DuplicateInformationKey(key) => "duplicate information key: "@ + key@,
    }
}

impl CompileError {
    pub fn message(&self) -> (r: String)
        ensures
            r@ == compile_error_text(*self),
    {
        match self {
            CompileError::DuplicateEntityUid(uid) => join(
                String::from_str("duplicate entity UID: "),
                uid.to_string().as_str(),
            ),
            CompileError::DuplicateEntityKey(key) => join(String::from_str("duplicate entity key: "), key.as_str()),
            CompileError::DuplicateInformationKey(key) => join(
                String::from_str("duplicate information key: "),
                key.as_str(),
            ),
        }
    }
}

/// A compile error as contracts see it.
pub enum CompileErrorView {
    DuplicateEntityUid(u128),
    DuplicateEntityKey(Seq<char>),
    DuplicateInformationKey(Seq<char>),
}

impl View for CompileError {
    type V = CompileErrorView;

    open spec fn view(&self) -> CompileErrorView {
        match *self {
            CompileError::DuplicateEntityUid(u) => CompileErrorView::DuplicateEntityUid(u@),
            CompileError::DuplicateEntityKey(k) => CompileErrorView::DuplicateEntityKey(k@),
            CompileError::DuplicateInformationKey(k) => CompileErrorView::DuplicateInformationKey(k@),
        }
    }
}

/// A package together with the state it starts from.
#[derive(Debug)]
pub struct CompiledLayer0 {
    pub source: Layer0Source,
    pub initial_state: WorldState,
}

/// The first refusal among the first `n` entities: an identity, then a
/// key, already taken by an earlier entity.
pub open spec fn entities_error(es: Seq<Entity>, n: int) -> Option<CompileErrorView>
    decreases n,
{
    if n <= 0 {
        None
    } else {
        match entities_error(es, n - 1) {
            Some(e) => Some(e),
            None => if exists|j: int| 0 <= j < n - 1 && (#[trigger] es[j]).uid@ == es[n - 1].uid@ {
                Some(CompileErrorView::DuplicateEntityUid(es[n - 1].uid@))
            } else if exists|j: int| 0 <= j < n - 1 && (#[trigger] es[j]).key@ == es[n - 1].key@ {
                Some(CompileErrorView::DuplicateEntityKey(es[n - 1].key@))
            } else {
                None
            },
        }
    }
}

/// The first `n` entities by identity.
pub open spec fn entity_map(es: Seq<Entity>, n: int) -> Map<u128, EntityView>
    decreases n,
{
    if n <= 0 {
        Map::empty()
    } else {
        entity_map(es, n - 1).insert(es[n - 1].uid@, es[n - 1]@)
    }
}

/// The first `n` relationships by identity, a later one replacing an
/// earlier one with the same identity.
pub open spec fn relationship_map(rs: Seq<Relationship>, n: int) -> Map<u128, RelationshipView>
    decreases n,
{
    if n <= 0 {
        Map::empty()
    } else {
        relationship_map(rs, n - 1).insert(rs[n - 1].uid@, rs[n - 1]@)
    }
}

/// The first record among the first `n` whose key an earlier record took.
pub open spec fn information_error(rs: Seq<InformationRecord>, n: int) -> Option<CompileErrorView>
    decreases n,
{
    if n <= 0 {
        None
    } else {
        match information_error(rs, n - 1) {
            Some(e) => Some(e),
            None => if exists|j: int| 0 <= j < n - 1 && (#[trigger] rs[j]).key@ == rs[n - 1].key@ {
                Some(CompileErrorView::DuplicateInformationKey(rs[n - 1].key@))
            } else {
                None
            },
        }
    }
}

/// The first `n` records by key.
pub open spec fn information_map(rs: Seq<InformationRecord>, n: int) -> Map<Seq<char>, InformationRecordView>
    decreases n,
{
    if n <= 0 {
        Map::empty()
    } else {
        information_map(rs, n - 1).insert(rs[n - 1].key@, rs[n - 1]@)
    }
}

/// The initial state of a package, or the first reason it has none:
/// entities with distinct identities and keys, relationships, and
/// information records with distinct keys, at revision zero and time zero.
pub open spec fn compile_spec(source: Layer0Source) -> Result<WorldStateView, CompileErrorView> {
    let es = source.entities@;
    let rs = source.relationships@;
    let is = source.information@;
    match entities_error(es, es.len() as int) {
        Some(e) => Err(e),
        None => match information_error(is, is.len() as int) {
            Some(e) => Err(e),
            None => Ok(
                WorldStateView {
                    entities: entity_map(es, es.len() as int),
                    relationships: relationship_map(rs, rs.len() as int),
                    information: information_map(is, is.len() as int),
                    ..initial_view()
                },
            ),
        },
    }
}

proof fn lemma_entity_map_dom(es: Seq<Entity>, n: int)
    requires
        0 <= n <= es.len(),
    ensures
        forall|u: u128| #[trigger] entity_map(es, n).contains_key(u) <==> exists|j: int| 0 <= j < n && (#[trigger] es[j]).uid@ == u,
    decreases n,
{
    if n > 0 {
        lemma_entity_map_dom(es, n - 1);
        assert forall|u: u128| #[trigger] entity_map(es, n).contains_key(u) <==> exists|j: int| 0 <= j < n && (#[trigger] es[j]).uid@ == u by {
            if exists|j: int| 0 <= j < n && (#[trigger] es[j]).uid@ == u {
                let j = choose|j: int| 0 <= j < n && (#[trigger] es[j]).uid@ == u;
                if j < n - 1 {
                    assert(entity_map(es, n - 1).contains_key(u));
                }
            }
            if entity_map(es, n - 1).contains_key(u) {
                let j = choose|j: int| 0 <= j < n - 1 && (#[trigger] es[j]).uid@ == u;
                assert(0 <= j < n);
            }
        }
    }
}

proof fn lemma_information_map_dom(rs: Seq<InformationRecord>, n: int)
    requires
        0 <= n <= rs.len(),
    ensures
        forall|k: Seq<char>| #[trigger] information_map(rs, n).contains_key(k) <==> exists|j: int| 0 <= j < n && (#[trigger] rs[j]).key@ == k,
    decreases n,
{
    if n > 0 {
        lemma_information_map_dom(rs, n - 1);
        assert forall|k: Seq<char>| #[trigger] information_map(rs, n).contains_key(k) <==> exists|j: int| 0 <= j < n && (#[trigger] rs[j]).key@ == k by {
            if exists|j: int| 0 <= j < n && (#[trigger] rs[j]).key@ == k {
                let j = choose|j: int| 0 <= j < n && (#[trigger] rs[j]).key@ == k;
                if j < n - 1 {
                    assert(information_map(rs, n - 1).contains_key(k));
                }
            }
            if information_map(rs, n - 1).contains_key(k) {
                let j = choose|j: int| 0 <= j < n - 1 && (#[trigger] rs[j]).key@ == k;
                assert(0 <= j < n);
            }
        }
    }
}

proof fn lemma_error_stable_entities(es: Seq<Entity>, m: int, n: int)
    requires
        0 < m <= n,
        entities_error(es, m) is Some,
    ensures
        entities_error(es, n) == entities_error(es, m),
    decreases n - m,
{
    if n > m {
        lemma_error_stable_entities(es, m, n - 1);
    }
}

proof fn lemma_error_stable_information(rs: Seq<InformationRecord>, m: int, n: int)
    requires
        0 < m <= n,
        information_error(rs, m) is Some,
    ensures
        information_error(rs, n) == information_error(rs, m),
    decreases n - m,
{
    if n > m {
        lemma_error_stable_information(rs, m, n - 1);
    }
}

/// Builds the initial world state of a package.
pub fn compile_layer0(source: Layer0Source) -> (r: Result<CompiledLayer0, CompileError>)
    ensures
        match compile_spec(source) {
            Ok(v) => r matches Ok(c) && c.initial_state@ == v && c.source == source,
            Err(e) => r matches Err(x) && x@ == e,
        },
{
    let mut state = WorldState::default();
    let mut entity_keys: OrderedMap<Key, ()> = OrderedMap::new();
    let ghost es = source.entities@;
    let n = source.entities.len();
    for i in 0..n
        invariant
            n == es.len(),
            es == source.entities@,
            entities_error(es, i as int) is None,
            state@ == (WorldStateView { entities: entity_map(es, i as int), ..initial_view() }),
            forall|k: Seq<char>| #[trigger] entity_keys@.contains_key(k) <==> exists|j: int| 0 <= j < i && (#[trigger] es[j]).key@ == k,
    {
        let entity = &source.entities[i];
        proof {
            lemma_entity_map_dom(es, i as int);
        }
        if state.entities.contains_key(&entity.uid) {
            proof {
                assert(entity_map(es, i as int).contains_key(entity.uid@));
                let j = choose|j: int| 0 <= j < i && (#[trigger] es[j]).uid@ == entity.uid@;
                assert(es[j].uid@ == es[i as int].uid@);
                assert(entities_error(es, i + 1) is Some);
                lemma_error_stable_entities(es, i + 1, n as int);
            }
            return Err(CompileError::DuplicateEntityUid(entity.uid));
        }
        assert(!deep_view(state.entities@).contains_key(entity.uid@));
        assert(state@.entities == entity_map(es, i as int));
        assert(!entity_map(es, i as int).contains_key(entity.uid@));
        assert(!exists|j: int| 0 <= j < i && (#[trigger] es[j]).uid@ == es[i as int].uid@);
        if entity_keys.contains_key(&entity.key) {
            proof {
                let j = choose|j: int| 0 <= j < i && (#[trigger] es[j]).key@ == entity.key@;
                assert(es[j].key@ == es[i as int].key@);
                assert(entities_error(es, i + 1) is Some);
                lemma_error_stable_entities(es, i + 1, n as int);
            }
            return Err(CompileError::DuplicateEntityKey(entity.key.clone()));
        }
        assert(!exists|j: int| 0 <= j < i && (#[trigger] es[j]).key@ == es[i as int].key@);
        assert(entities_error(es, i + 1) is None);
        entity_keys.insert(entity.key.clone(), ());
        let copy = entity.clone();
        let ghost before = state.entities@;
        state.entities.insert(entity.uid, copy);
        proof {
            assert(deep_view(state.entities@) =~= deep_view(before).insert(entity.uid@, entity@));
            assert(state@ =~= WorldStateView { entities: entity_map(es, i + 1), ..initial_view() });
            assert forall|k: Seq<char>| #[trigger] entity_keys@.contains_key(k) <==> exists|j: int| 0 <= j < i + 1 && (#[trigger] es[j]).key@ == k by {
                if k == entity.key@ {
                    assert(es[i as int].key@ == k);
                } else if exists|j: int| 0 <= j < i + 1 && (#[trigger] es[j]).key@ == k {
                    let j = choose|j: int| 0 <= j < i + 1 && (#[trigger] es[j]).key@ == k;
                    assert(j < i);
                }
            }
        }
    }
    let ghost rs = source.relationships@;
    let m = source.relationships.len();
    for i in 0..m
        invariant
            m == rs.len(),
            rs == source.relationships@,
            es == source.entities@,
            entities_error(es, es.len() as int) is None,
            state@ == (WorldStateView {
                entities: entity_map(es, es.len() as int),
                relationships: relationship_map(rs, i as int),
                ..initial_view()
            }),
    {
        let relationship = &source.relationships[i];
        let copy = relationship.clone();
        let ghost before = state.relationships@;
        state.relationships.insert(relationship.uid, copy);
        proof {
            assert(deep_view(state.relationships@) =~= deep_view(before).insert(relationship.uid@, relationship@));
        }
    }
    let ghost is = source.information@;
    let k = source.information.len();
    for i in 0..k
        invariant
            k == is.len(),
            is == source.information@,
            es == source.entities@,
            rs == source.relationships@,
            entities_error(es, es.len() as int) is None,
            information_error(is, i as int) is None,
            state@ == (WorldStateView {
                entities: entity_map(es, es.len() as int),
                relationships: relationship_map(rs, rs.len() as int),
                information: information_map(is, i as int),
                ..initial_view()
            }),
    {
        let record = &source.information[i];
        proof {
            lemma_information_map_dom(is, i as int);
        }
        let copy = record.clone();
        let ghost before = state.information@;
        if state.information.insert(record.key.clone(), copy).is_some() {
            proof {
                assert(deep_view(before).contains_key(record.key@));
                assert(information_map(is, i as int).contains_key(record.key@));
                let j = choose|j: int| 0 <= j < i && (#[trigger] is[j]).key@ == record.key@;
                assert(is[j].key@ == is[i as int].key@);
                assert(information_error(is, i + 1) is Some);
                lemma_error_stable_information(is, i + 1, k as int);
            }
            return Err(CompileError::DuplicateInformationKey(record.key.clone()));
        }
        proof {
            assert(!information_map(is, i as int).contains_key(record.key@));
            assert(!exists|j: int| 0 <= j < i && (#[trigger] is[j]).key@ == is[i as int].key@);
            assert(information_error(is, i + 1) is None);
            assert(deep_view(state.information@) =~= deep_view(before).insert(record.key@, record@));
        }
    }
    Ok(CompiledLayer0 { source, initial_state: state })
}

} // verus!
