//! Relationships by identity and by key.
use crate::keyed::{CatalogConflict, KeyedCatalog, Keyed, file_outcome, key_taken};
use crate::relationship::relationship::{Relationship, active_at_spec, involves_spec};
use crate::types::key::Key;
use crate::types::time::SimTime;
use crate::types::uid::{EntityUid, RelationshipUid, uuid_text};
use crate::text::join;
use vstd::prelude::*;
use vstd::string::*;

verus! {

#[derive(Debug)]
pub enum RelationshipCatalogError {
    DuplicateUid(RelationshipUid),
    DuplicateKey(Key),
}

/// The text of a relationship catalog error.
pub open spec fn rel_catalog_error_text(e: RelationshipCatalogError) -> Seq<char> {
    match e {
        RelationshipCatalogError::DuplicateUid(uid) => "relationship UID already registered: "@ + uuid_text(uid@),
        RelationshipCatalogError::DuplicateKey(key) => "relationship key already registered: "@ + key@,
    }
}

impl RelationshipCatalogError {
    pub fn message(&self) -> (r: String)
        ensures
            r@ == rel_catalog_error_text(*self),
    {
        match self {
            RelationshipCatalogError::DuplicateUid(uid) => join(
                String::from_str("relationship UID already registered: "),
                uid.to_string().as_str(),
            ),
            RelationshipCatalogError::DuplicateKey(key) => join(
                String::from_str("relationship key already registered: "),
                key.as_str(),
            ),
        }
    }
}

/// Relationships by identity and by key.
#[derive(Debug)]
pub struct RelationshipCatalog {
    relationships: KeyedCatalog<RelationshipUid, Relationship>,
}

impl View for RelationshipCatalog {
    type V = Map<u128, Relationship>;

    closed spec fn view(&self) -> Map<u128, Relationship> {
        self.relationships@
    }
}

impl Default for RelationshipCatalog {
    fn default() -> (r: Self)
        ensures
            r@ == Map::<u128, Relationship>::empty(),
    {
        RelationshipCatalog::new()
    }
}

impl RelationshipCatalog {
    /// The relationships in identity order.
    pub closed spec fn in_order(self) -> Seq<Relationship> {
        self.relationships.items()
    }

    /// The relationships in order are those of the catalog, each once, with
    /// increasing identities.
    pub fn lemma_order(&self)
        ensures
            self.in_order().len() == self@.len(),
            forall|i: int|
                0 <= i < self.in_order().len() ==> self@.contains_key(#[trigger] self.in_order()[i].uid@)
                    && self@[self.in_order()[i].uid@] == self.in_order()[i],
            forall|u: u128| #[trigger] self@.contains_key(u) ==> exists|i: int| 0 <= i < self.in_order().len() && self.in_order()[i] == self@[u],
            forall|i: int, j: int|
                0 <= i < j < self.in_order().len() ==> (#[trigger] self.in_order()[i]).uid@ < (
                #[trigger] self.in_order()[j]).uid@,
            forall|u: u128| #[trigger] self@.contains_key(u) ==> self@[u].uid@ == u,
    {
        self.relationships.lemma_indexed();
        proof {
            let items = self.relationships.items();
            assert forall|i: int| 0 <= i < self.in_order().len() implies self@.contains_key(
                #[trigger] self.in_order()[i].uid@,
            ) && self@[self.in_order()[i].uid@] == self.in_order()[i] by {
                assert(items[i].uid_of() == self.in_order()[i].uid@);
            }
            assert forall|i: int, j: int| 0 <= i < j < self.in_order().len() implies (
            #[trigger] self.in_order()[i]).uid@ < (#[trigger] self.in_order()[j]).uid@ by {
                assert(items[i].uid_of() == self.in_order()[i].uid@);
                assert(items[j].uid_of() == self.in_order()[j].uid@);
            }
        }
    }

    pub fn new() -> (r: Self)
        ensures
            r@ == Map::<u128, Relationship>::empty(),
    {
        RelationshipCatalog { relationships: KeyedCatalog::new() }
    }

    /// Files a relationship whose identity and key are both new.
    pub fn register(&mut self, relationship: Relationship) -> (r: Result<(), RelationshipCatalogError>)
        ensures
            match file_outcome::<u128, Relationship, RelationshipUid>(old(self)@, relationship) {
                Ok(m) => r is Ok && final(self)@ == m,
                Err(CatalogConflict::Uid) => r == Err::<(), RelationshipCatalogError>(
                    RelationshipCatalogError::DuplicateUid(relationship.uid),
                ) && final(self)@ == old(self)@,
                Err(CatalogConflict::Key) => r == Err::<(), RelationshipCatalogError>(
                    RelationshipCatalogError::DuplicateKey(relationship.key),
                ) && final(self)@ == old(self)@,
            },
    {
        let uid = relationship.uid;
        let key = relationship.key.clone();
        match self.relationships.file(relationship) {
            Ok(()) => Ok(()),
            Err(CatalogConflict::Uid) => Err(RelationshipCatalogError::DuplicateUid(uid)),
            Err(CatalogConflict::Key) => Err(RelationshipCatalogError::DuplicateKey(key)),
        }
    }

    pub fn get(&self, uid: RelationshipUid) -> (r: Option<&Relationship>)
        ensures
            match r {
                Some(x) => self@.contains_key(uid@) && *x == self@[uid@],
                None => !self@.contains_key(uid@),
            },
    {
        self.relationships.get(&uid)
    }

    /// The relationship that carries this key.
    pub fn get_by_key(&self, key: &str) -> (r: Option<&Relationship>)
        ensures
            match r {
                Some(x) => self@.contains_key(x.uid@) && *x == self@[x.uid@] && x.key@ == key@,
                None => !key_taken::<u128, Relationship, RelationshipUid>(self@, key@),
            },
    {
        self.relationships.get_by_key(key)
    }

    /// Every relationship, in identity order.
    pub fn iter(&self) -> (r: Vec<&Relationship>)
        ensures
            r@.map_values(|x: &Relationship| *x) == self.in_order(),
    {
        let n = self.relationships.len();
        let mut out: Vec<&Relationship> = Vec::new();
        for i in 0..n
            invariant
                n == self.in_order().len(),
                out@.map_values(|x: &Relationship| *x) == self.in_order().subrange(0, i as int),
        {
            let x = self.relationships.item_at(i);
            let ghost before = out@;
            out.push(x);
            assert(out@.map_values(|x: &Relationship| *x) =~= before.map_values(|x: &Relationship| *x).push(*x));
            assert(out@.map_values(|x: &Relationship| *x) =~= self.in_order().subrange(0, i + 1));
        }
        assert(self.in_order().subrange(0, n as int) =~= self.in_order());
        out
    }

    /// The relationships in force at `time`, in identity order.
    pub fn active_at(&self, time: SimTime) -> (r: Vec<&Relationship>)
        ensures
            r@.map_values(|x: &Relationship| *x) == self.in_order().filter(
                |x: Relationship| active_at_spec(x.valid_from, x.valid_to, time),
            ),
    {
        let n = self.relationships.len();
        let ghost all = self.in_order();
        let mut out: Vec<&Relationship> = Vec::new();
        for i in 0..n
            invariant
                n == all.len(),
                all == self.in_order(),
                out@.map_values(|x: &Relationship| *x) == all.subrange(0, i as int).filter(
                    |x: Relationship| active_at_spec(x.valid_from, x.valid_to, time),
                ),
        {
            proof {
                assert(all.subrange(0, i + 1).drop_last() =~= all.subrange(0, i as int));
                reveal(Seq::filter);
            }
            let x = self.relationships.item_at(i);
            let ghost before = out@;
            if x.active_at(time) {
                out.push(x);
                assert(out@.map_values(|x: &Relationship| *x) =~= before.map_values(
                    |x: &Relationship| *x,
                ).push(*x));
            }
        }
        assert(all.subrange(0, n as int) =~= all);
        out
    }

    /// The relationships in which `entity` takes part, in identity order.
    pub fn involving(&self, entity: EntityUid) -> (r: Vec<&Relationship>)
        ensures
            r@.map_values(|x: &Relationship| *x) == self.in_order().filter(
                |x: Relationship| involves_spec(x.participants@, entity@),
            ),
    {
        let n = self.relationships.len();
        let ghost all = self.in_order();
        let mut out: Vec<&Relationship> = Vec::new();
        for i in 0..n
            invariant
                n == all.len(),
                all == self.in_order(),
                out@.map_values(|x: &Relationship| *x) == all.subrange(0, i as int).filter(
                    |x: Relationship| involves_spec(x.participants@, entity@),
                ),
        {
            proof {
                assert(all.subrange(0, i + 1).drop_last() =~= all.subrange(0, i as int));
                reveal(Seq::filter);
            }
            let x = self.relationships.item_at(i);
            let ghost before = out@;
            if x.involves(entity) {
                out.push(x);
                assert(out@.map_values(|x: &Relationship| *x) =~= before.map_values(
                    |x: &Relationship| *x,
                ).push(*x));
            }
        }
        assert(all.subrange(0, n as int) =~= all);
        out
    }

    pub fn len(&self) -> (n: usize)
        ensures
            n == self@.len(),
    {
        self.relationships.len()
    }

    pub fn is_empty(&self) -> (b: bool)
        ensures
            b == (self@ == Map::<u128, Relationship>::empty()),
    {
        self.relationships.is_empty()
    }
}

} // verus!
