//! Catalogs that file each record under its permanent identity and under
//! its authored key, refusing a second record with either.
use crate::ordered_map::{OrderedKey, OrderedMap};
use crate::types::key::Key;
use vstd::prelude::*;

verus! {

/// Records with a permanent identity and an authored key.
pub trait Keyed<U: OrderedKey>: Sized {
    spec fn uid_of(&self) -> U::V;

    spec fn key_of(&self) -> Seq<char>;

    fn uid(&self) -> (r: U)
        ensures
            r@ == self.uid_of(),
    ;

    fn key(&self) -> (r: &Key)
        ensures
            r@ == self.key_of(),
    ;
}

/// Which of the two indexes refused a record.
#[derive(Clone, Copy, Debug, PartialEq, Eq, Structural)]
pub enum CatalogConflict {
    Uid,
    Key,
}

/// Whether some record of `m` carries the key `k`.
pub open spec fn key_taken<UV, T: Keyed<U>, U: OrderedKey<V = UV>>(m: Map<UV, T>, k: Seq<char>) -> bool {
    exists|u: UV| #[trigger] m.contains_key(u) && m[u].key_of() == k
}

/// The outcome of filing `item` in a catalog holding `m`.
pub open spec fn file_outcome<UV, T: Keyed<U>, U: OrderedKey<V = UV>>(m: Map<UV, T>, item: T) -> Result<
    Map<UV, T>,
    CatalogConflict,
> {
    if m.contains_key(item.uid_of()) {
        Err(CatalogConflict::Uid)
    } else if key_taken::<UV, T, U>(m, item.key_of()) {
        Err(CatalogConflict::Key)
    } else {
        Ok(m.insert(item.uid_of(), item))
    }
}

/// Records by identity, with an index by key.
#[verifier::reject_recursive_types(U)]
#[derive(Debug)]
pub struct KeyedCatalog<U: OrderedKey, T: Keyed<U>> {
    by_uid: OrderedMap<U, T>,
    by_key: OrderedMap<Key, U>,
}

impl<U: OrderedKey, T: Keyed<U>> View for KeyedCatalog<U, T> {
    type V = Map<U::V, T>;

    closed spec fn view(&self) -> Map<U::V, T> {
        self.by_uid@
    }
}

impl<U: OrderedKey, T: Keyed<U>> KeyedCatalog<U, T> {
    #[verifier::type_invariant]
    closed spec fn indexed(self) -> bool {
        &&& forall|u: U::V| #[trigger]
            self.by_uid@.contains_key(u) ==> {
                &&& self.by_uid@[u].uid_of() == u
                &&& self.by_key@.contains_key(self.by_uid@[u].key_of())
                &&& self.by_key@[self.by_uid@[u].key_of()]@ == u
            }
        &&& forall|k: Seq<char>| #[trigger]
            self.by_key@.contains_key(k) ==> {
                &&& self.by_uid@.contains_key(self.by_key@[k]@)
                &&& self.by_uid@[self.by_key@[k]@].key_of() == k
            }
    }

    /// The records in identity order.
    pub closed spec fn items(self) -> Seq<T> {
        self.by_uid.values()
    }

    /// Each record is filed under its own identity, and no two records
    /// share a key.
    pub fn lemma_indexed(&self)
        ensures
            forall|u: U::V| #[trigger] self@.contains_key(u) ==> self@[u].uid_of() == u,
            forall|u: U::V, w: U::V|
                #![trigger self@.contains_key(u), self@.contains_key(w)]
                self@.contains_key(u) && self@.contains_key(w) && self@[u].key_of() == self@[w].key_of()
                    ==> u == w,
            self@.dom().finite(),
            self.items().len() == self@.len(),
            forall|i: int| 0 <= i < self.items().len() ==> self@.contains_key(#[trigger] self.items()[i].uid_of())
                && self@[self.items()[i].uid_of()] == self.items()[i],
            forall|u: U::V| #[trigger] self@.contains_key(u) ==> exists|i: int| 0 <= i < self.items().len() && self.items()[i] == self@[u],
            forall|i: int, j: int|
                0 <= i < j < self.items().len() ==> U::key_lt(
                    #[trigger] self.items()[i].uid_of(),
                    #[trigger] self.items()[j].uid_of(),
                ),
    {
        proof {
            use_type_invariant(self);
            self.by_uid.lemma_view();
        }
        self.by_uid.lemma_sorted();
        proof {
            crate::ordered_map::lemma_sorted_len::<U, T>(self.by_uid.keys(), self.by_uid.values());
            assert forall|i: int| 0 <= i < self.items().len() implies self@.contains_key(#[trigger] self.items()[i].uid_of())
                && self@[self.items()[i].uid_of()] == self.items()[i] by {
                assert(self.by_uid@.contains_key(self.by_uid.keys()[i]));
            }
            assert forall|i: int| 0 <= i < self.items().len() implies #[trigger] self.items()[i].uid_of() == self.by_uid.keys()[i] by {
                assert(self.by_uid@.contains_key(self.by_uid.keys()[i]));
            }
            assert forall|i: int, j: int| 0 <= i < j < self.items().len() implies U::key_lt(
                #[trigger] self.items()[i].uid_of(),
                #[trigger] self.items()[j].uid_of(),
            ) by {
                assert(self.items()[i].uid_of() == self.by_uid.keys()[i]);
                assert(self.items()[j].uid_of() == self.by_uid.keys()[j]);
            }
            assert forall|u: U::V| #[trigger] self@.contains_key(u) implies exists|i: int| 0 <= i < self.items().len() && self.items()[i] == self@[u] by {
                let i = self.by_uid.keys().index_of(u);
                assert(self.items()[i] == self@[u]);
            }
        }
    }

    /// A catalog holds finitely many records.
    pub proof fn lemma_finite(self)
        ensures
            self@.dom().finite(),
    {
        self.by_uid.lemma_view();
    }

    pub fn new() -> (r: Self)
        ensures
            r@ == Map::<U::V, T>::empty(),
    {
        KeyedCatalog { by_uid: OrderedMap::new(), by_key: OrderedMap::new() }
    }

    /// Files a record whose identity and key are both new.
    pub fn file(&mut self, item: T) -> (r: Result<(), CatalogConflict>)
        ensures
            match file_outcome::<U::V, T, U>(old(self)@, item) {
                Ok(m) => r is Ok && final(self)@ == m,
                Err(e) => r == Err::<(), CatalogConflict>(e) && final(self)@ == old(self)@,
            },
    {
        proof {
            use_type_invariant(&*self);
        }
        let uid = item.uid();
        if self.by_uid.contains_key(&uid) {
            return Err(CatalogConflict::Uid);
        }
        let key = item.key().clone();
        if self.by_key.contains_key(&key) {
            proof {
                let u = self.by_key@[key@]@;
                assert(self.by_uid@.contains_key(u));
            }
            return Err(CatalogConflict::Key);
        }
        proof {
            assert(!key_taken::<U::V, T, U>(old(self)@, item.key_of())) by {
                if key_taken::<U::V, T, U>(old(self)@, item.key_of()) {
                    let u = choose|u: U::V| #[trigger] old(self)@.contains_key(u) && old(self)@[u].key_of() == item.key_of();
                    assert(self.by_uid@.contains_key(u));
                }
            }
        }
        let ghost uv = uid@;
        let ghost kv = key@;
        let uid2 = uid.copy_key();
        let mut taken: Self = KeyedCatalog::new();
        std::mem::swap(&mut taken, self);
        let KeyedCatalog { mut by_uid, mut by_key } = taken;
        by_key.insert(key, uid2);
        by_uid.insert(uid, item);
        proof {
            assert forall|u: U::V| #[trigger] by_uid@.contains_key(u) implies {
                &&& by_uid@[u].uid_of() == u
                &&& by_key@.contains_key(by_uid@[u].key_of())
                &&& by_key@[by_uid@[u].key_of()]@ == u
            } by {
                if u != uv {
                    assert(old(self).by_uid@.contains_key(u));
                    assert(old(self).by_uid@[u].key_of() != kv);
                }
            }
            assert forall|k: Seq<char>| #[trigger] by_key@.contains_key(k) implies {
                &&& by_uid@.contains_key(by_key@[k]@)
                &&& by_uid@[by_key@[k]@].key_of() == k
            } by {
                if k != kv {
                    assert(old(self).by_key@.contains_key(k));
                    assert(old(self).by_key@[k]@ != uv);
                }
            }
        }
        *self = KeyedCatalog { by_uid, by_key };
        Ok(())
    }

    pub fn get(&self, uid: &U) -> (r: Option<&T>)
        ensures
            match r {
                Some(t) => self@.contains_key(uid@) && *t == self@[uid@],
                None => !self@.contains_key(uid@),
            },
    {
        self.by_uid.get(uid)
    }

    /// The record that carries this key.
    pub fn get_by_key(&self, key: &str) -> (r: Option<&T>)
        ensures
            match r {
                Some(t) => self@.contains_key(t.uid_of()) && *t == self@[t.uid_of()] && t.key_of() == key@,
                None => !key_taken::<U::V, T, U>(self@, key@),
            },
    {
        proof {
            use_type_invariant(self);
        }
        match crate::types::key::lookup_text(&self.by_key, key) {
            Some(uid) => {
                let r = self.by_uid.get(uid);
                proof {
                    assert(self.by_uid@[uid@].uid_of() == uid@);
                }
                r
            },
            None => {
                proof {
                    if key_taken::<U::V, T, U>(self@, key@) {
                        let u = choose|u: U::V| #[trigger] self@.contains_key(u) && self@[u].key_of() == key@;
                        assert(self.by_uid@.contains_key(u));
                    }
                }
                None
            },
        }
    }

    pub fn len(&self) -> (n: usize)
        ensures
            n == self@.len(),
            n == self.items().len(),
    {
        proof {
            self.by_uid.lemma_view();
        }
        self.by_uid.len()
    }

    pub fn is_empty(&self) -> (b: bool)
        ensures
            b == (self@ == Map::<U::V, T>::empty()),
    {
        self.by_uid.is_empty()
    }

    /// The record at position `i` in identity order.
    pub fn item_at(&self, i: usize) -> (r: &T)
        requires
            i < self.items().len(),
        ensures
            *r == self.items()[i as int],
    {
        proof {
            self.by_uid.lemma_view();
        }
        self.by_uid.value_at(i)
    }
}

/// Filing a record and then looking up its identity or its key finds it,
/// and the catalog holds one record more than before.
pub proof fn law_file_then_find<U: OrderedKey, T: Keyed<U>>(catalog: KeyedCatalog<U, T>, item: T)
    requires
        file_outcome::<U::V, T, U>(catalog@, item) is Ok,
    ensures
        ({
            let after = file_outcome::<U::V, T, U>(catalog@, item)->Ok_0;
            &&& after.contains_key(item.uid_of())
            &&& after[item.uid_of()] == item
            &&& key_taken::<U::V, T, U>(after, item.key_of())
            &&& after.len() == catalog@.len() + 1
        }),
{
    catalog.lemma_finite();
    let after = file_outcome::<U::V, T, U>(catalog@, item)->Ok_0;
    assert(after.contains_key(item.uid_of()) && after[item.uid_of()].key_of() == item.key_of());
}

} // verus!
