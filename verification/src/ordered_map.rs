//! A finite map kept as a strictly increasing sequence of keys.
//!
//! Iteration follows key order, so every report that walks a map lists its
//! findings in the same deterministic order.
use vstd::prelude::*;

verus! {

/// Keys that can be placed in an [`OrderedMap`]: their views carry a strict
/// total order that executable code can decide.
pub trait OrderedKey: View + Sized {
    spec fn key_lt(a: Self::V, b: Self::V) -> bool;

    proof fn lemma_key_order(a: Self::V, b: Self::V, c: Self::V)
        ensures
            !Self::key_lt(a, a),
            Self::key_lt(a, b) && Self::key_lt(b, c) ==> Self::key_lt(a, c),
            a == b || Self::key_lt(a, b) || Self::key_lt(b, a),
    ;

    fn precedes(&self, other: &Self) -> (r: bool)
        ensures
            r == Self::key_lt(self@, other@),
    ;

    fn same_key(&self, other: &Self) -> (r: bool)
        ensures
            r == (self@ == other@),
    ;

    fn copy_key(&self) -> (r: Self)
        ensures
            r@ == self@,
    ;
}

/// Values whose copies have the same content as the original.
pub trait CloneView: View + Sized {
    fn clone_view(&self) -> (r: Self)
        ensures
            r@ == self@,
    ;
}

/// The content of each value of a map.
pub open spec fn deep_view<KV, V: View>(m: Map<KV, V>) -> Map<KV, V::V> {
    m.map_values(|v: V| v@)
}

/// Every key of `s` precedes every later key.
pub open spec fn strictly_sorted<K: OrderedKey>(s: Seq<K::V>) -> bool {
    forall|i: int, j: int| 0 <= i < j < s.len() ==> K::key_lt(#[trigger] s[i], #[trigger] s[j])
}

/// The map whose keys are `keys` and whose value at `keys[i]` is `values[i]`.
pub open spec fn map_of<KV, V>(keys: Seq<KV>, values: Seq<V>) -> Map<KV, V> {
    Map::new(|k: KV| keys.contains(k), |k: KV| values[keys.index_of(k)])
}

pub proof fn lemma_sorted_index_of<K: OrderedKey>(s: Seq<K::V>, i: int)
    requires
        strictly_sorted::<K>(s),
        0 <= i < s.len(),
    ensures
        s.contains(s[i]),
        s.index_of(s[i]) == i,
{
    assert(s.contains(s[i]));
    let j = s.index_of(s[i]);
    if j != i {
        K::lemma_key_order(s[i], s[i], s[i]);
        if j < i {
            assert(K::key_lt(s[j], s[i]));
        } else {
            assert(K::key_lt(s[i], s[j]));
        }
    }
}

/// In a strictly sorted sequence, position `i` holds the key `map_of` reads there.
pub proof fn lemma_map_of_index<K: OrderedKey, V>(keys: Seq<K::V>, values: Seq<V>, i: int)
    requires
        strictly_sorted::<K>(keys),
        keys.len() == values.len(),
        0 <= i < keys.len(),
    ensures
        map_of(keys, values).contains_key(keys[i]),
        map_of(keys, values)[keys[i]] == values[i],
{
    lemma_sorted_index_of::<K>(keys, i);
}

/// Two strictly sorted sequences with the same elements are equal.
pub proof fn lemma_sorted_unique<K: OrderedKey>(a: Seq<K::V>, b: Seq<K::V>)
    requires
        strictly_sorted::<K>(a),
        strictly_sorted::<K>(b),
        forall|k: K::V| a.contains(k) <==> b.contains(k),
    ensures
        a == b,
    decreases a.len() + b.len(),
{
    if a.len() == 0 {
        if b.len() > 0 {
            assert(b.contains(b[0]));
        }
        assert(a =~= b);
    } else if b.len() == 0 {
        assert(a.contains(a[0]));
    } else {
        // the first elements are both minimal, hence equal
        assert(a.contains(a[0]));
        assert(b.contains(b[0]));
        let ia = choose|i: int| 0 <= i < a.len() && a[i] == b[0];
        let ib = choose|i: int| 0 <= i < b.len() && b[i] == a[0];
        K::lemma_key_order(a[0], b[0], a[0]);
        if a[0] != b[0] {
            if ia > 0 {
                assert(K::key_lt(a[0], a[ia]));
            }
            if ib > 0 {
                assert(K::key_lt(b[0], b[ib]));
            }
            K::lemma_key_order(a[0], b[0], a[0]);
            K::lemma_key_order(b[0], a[0], b[0]);
        }
        let a1 = a.drop_first();
        let b1 = b.drop_first();
        assert forall|k: K::V| a1.contains(k) <==> b1.contains(k) by {
            if a1.contains(k) {
                let i = choose|i: int| 0 <= i < a1.len() && a1[i] == k;
                assert(a[i + 1] == k);
                assert(K::key_lt(a[0], a[i + 1]));
                K::lemma_key_order(k, k, k);
                assert(b.contains(k));
                let j = choose|j: int| 0 <= j < b.len() && b[j] == k;
                assert(j != 0);
                assert(b1[j - 1] == k);
            }
            if b1.contains(k) {
                let i = choose|i: int| 0 <= i < b1.len() && b1[i] == k;
                assert(b[i + 1] == k);
                assert(K::key_lt(b[0], b[i + 1]));
                K::lemma_key_order(k, k, k);
                assert(a.contains(k));
                let j = choose|j: int| 0 <= j < a.len() && a[j] == k;
                assert(j != 0);
                assert(a1[j - 1] == k);
            }
        }
        lemma_sorted_unique::<K>(a1, b1);
        assert(a =~= b) by {
            assert forall|i: int| 0 <= i < a.len() implies a[i] == b[i] by {
                if i > 0 {
                    assert(a[i] == a1[i - 1]);
                    assert(b[i] == b1[i - 1]);
                }
            }
        }
    }
}

/// A map built from strictly sorted keys has one entry per key.
pub proof fn lemma_sorted_len<K: OrderedKey, V>(keys: Seq<K::V>, values: Seq<V>)
    requires
        strictly_sorted::<K>(keys),
    ensures
        map_of(keys, values).dom() == keys.to_set(),
        map_of(keys, values).len() == keys.len(),
{
    assert(map_of(keys, values).dom() =~= keys.to_set());
    assert(keys.no_duplicates()) by {
        assert forall|i: int, j: int| 0 <= i < keys.len() && 0 <= j < keys.len() && i != j implies keys[i]
            != keys[j] by {
            K::lemma_key_order(keys[i], keys[i], keys[i]);
            K::lemma_key_order(keys[j], keys[j], keys[j]);
        }
    }
    keys.unique_seq_to_set();
}

spec fn entry_keys<K: View, V>(entries: Seq<(K, V)>) -> Seq<K::V> {
    entries.map_values(|e: (K, V)| e.0@)
}

spec fn entry_values<K, V>(entries: Seq<(K, V)>) -> Seq<V> {
    entries.map_values(|e: (K, V)| e.1)
}

/// A finite map from keys to values, held in increasing key order.
#[verifier::reject_recursive_types(K)]
#[derive(Debug)]
pub struct OrderedMap<K: OrderedKey, V> {
    entries: Vec<(K, V)>,
}

impl<K: OrderedKey, V> View for OrderedMap<K, V> {
    type V = Map<K::V, V>;

    closed spec fn view(&self) -> Map<K::V, V> {
        map_of(self.keys(), self.values())
    }
}

impl<K: OrderedKey, V> OrderedMap<K, V> {
    #[verifier::type_invariant]
    closed spec fn inv(self) -> bool {
        strictly_sorted::<K>(self.keys())
    }

    /// The keys, in increasing order.
    pub closed spec fn keys(self) -> Seq<K::V> {
        entry_keys(self.entries@)
    }

    /// The values, in the order of their keys.
    pub closed spec fn values(self) -> Seq<V> {
        entry_values(self.entries@)
    }

    /// Each value lies strictly inside the map.
    pub proof fn lemma_value_decreases(self, i: int)
        requires
            0 <= i < self.values().len(),
        ensures
            decreases_to!(self => self.values()[i]),
    {
        let e = self.entries;
        assert(decreases_to!(self => e));
        assert(decreases_to!(e => e@)) by {
            broadcast use vstd::std_specs::vec::axiom_vec_decreases_to_view;
        }
        assert(decreases_to!(e@ => e@[i]));
        assert(decreases_to!(e@[i] => e@[i].1));
        assert(self.values()[i] == e@[i].1);
    }

    /// The view is the map of the key and value sequences.
    pub proof fn lemma_view(self)
        ensures
            self.keys().len() == self.values().len(),
            self@ == map_of(self.keys(), self.values()),
            self@.dom() == self.keys().to_set(),
            self@.dom().finite(),
    {
        assert(self@.dom() =~= self.keys().to_set());
        self.keys().lemma_cardinality_of_set();
    }

    /// Establishes the key order of an existing map.
    pub fn lemma_sorted(&self)
        ensures
            strictly_sorted::<K>(self.keys()),
            self.keys().len() == self.values().len(),
            forall|i: int|
                #![trigger self.keys()[i]]
                0 <= i < self.keys().len() ==> self@.contains_key(self.keys()[i]) && self@[self.keys()[i]]
                    == self.values()[i],
            forall|k: K::V| #[trigger] self@.contains_key(k) <==> self.keys().contains(k),
    {
        proof {
            use_type_invariant(self);
            assert forall|i: int| 0 <= i < self.keys().len() implies self@.contains_key(
                self.keys()[i],
            ) && self@[self.keys()[i]] == self.values()[i] by {
                lemma_map_of_index::<K, V>(self.keys(), self.values(), i);
            }
        }
    }

    pub fn new() -> (m: Self)
        ensures
            m@ == Map::<K::V, V>::empty(),
            m.keys() == Seq::<K::V>::empty(),
            m.values() == Seq::<V>::empty(),
    {
        let m = OrderedMap { entries: Vec::new() };
        assert(m.keys() =~= Seq::<K::V>::empty());
        assert(m.values() =~= Seq::<V>::empty());
        assert(m@ =~= Map::<K::V, V>::empty());
        m
    }

    pub fn len(&self) -> (n: usize)
        ensures
            n == self.keys().len(),
            n == self@.len(),
    {
        proof {
            use_type_invariant(self);
            lemma_sorted_len::<K, V>(self.keys(), self.values());
        }
        self.entries.len()
    }

    pub fn is_empty(&self) -> (b: bool)
        ensures
            b == (self.keys().len() == 0),
            b == (self@ == Map::<K::V, V>::empty()),
    {
        proof {
            use_type_invariant(self);
            if self.keys().len() > 0 {
                lemma_map_of_index::<K, V>(self.keys(), self.values(), 0);
                assert(self@.contains_key(self.keys()[0]));
            } else {
                assert(self@ =~= Map::<K::V, V>::empty());
            }
        }
        self.entries.len() == 0
    }

    pub fn key_at(&self, i: usize) -> (k: &K)
        requires
            i < self.keys().len(),
        ensures
            k@ == self.keys()[i as int],
    {
        &self.entries[i].0
    }

    pub fn value_at(&self, i: usize) -> (v: &V)
        requires
            i < self.keys().len(),
        ensures
            *v == self.values()[i as int],
    {
        &self.entries[i].1
    }

    /// Position of `k` among the keys.
    pub fn index_of(&self, k: &K) -> (r: Option<usize>)
        ensures
            match r {
                Some(i) => i < self.keys().len() && self.keys()[i as int] == k@,
                None => !self.keys().contains(k@),
            },
            r is Some <==> self@.contains_key(k@),
    {
        let n = self.entries.len();
        let mut i: usize = 0;
        while i < n
            invariant
                n == self.keys().len(),
                i <= n,
                forall|j: int| 0 <= j < i ==> self.keys()[j] != k@,
            decreases n - i,
        {
            if self.entries[i].0.same_key(k) {
                assert(self.keys()[i as int] == k@);
                assert(self.keys().contains(k@));
                return Some(i);
            }
            i = i + 1;
        }
        None
    }

    pub fn contains_key(&self, k: &K) -> (b: bool)
        ensures
            b == self@.contains_key(k@),
    {
        self.index_of(k).is_some()
    }

    pub fn get(&self, k: &K) -> (r: Option<&V>)
        ensures
            match r {
                Some(v) => self@.contains_key(k@) && *v == self@[k@],
                None => !self@.contains_key(k@),
            },
    {
        match self.index_of(k) {
            Some(i) => {
                proof {
                    use_type_invariant(self);
                    lemma_map_of_index::<K, V>(self.keys(), self.values(), i as int);
                }
                Some(&self.entries[i].1)
            },
            None => None,
        }
    }

    /// Inserts `k ↦ v`, returning the value that `k` had before.
    pub fn insert(&mut self, k: K, v: V) -> (r: Option<V>)
        ensures
            final(self)@ == old(self)@.insert(k@, v),
            match r {
                Some(o) => old(self)@.contains_key(k@) && o == old(self)@[k@],
                None => !old(self)@.contains_key(k@),
            },
    {
        proof {
            use_type_invariant(&*self);
        }
        let ghost old_keys = self.keys();
        let ghost old_values = self.values();
        let n = self.entries.len();
        let mut p: usize = 0;
        while p < n && self.entries[p].0.precedes(&k)
            invariant
                n == self.keys().len(),
                self.keys() == old_keys,
                p <= n,
                forall|j: int| 0 <= j < p ==> K::key_lt(#[trigger] old_keys[j], k@),
            decreases n - p,
        {
            p = p + 1;
        }
        // every key from p on is at least k
        proof {
            assert forall|j: int| p <= j < n implies !K::key_lt(#[trigger] old_keys[j], k@) by {
                if p < j {
                    K::lemma_key_order(old_keys[p as int], old_keys[j], k@);
                }
            }
        }
        if p < n && self.entries[p].0.same_key(&k) {
            let mut entries: Vec<(K, V)> = Vec::new();
            std::mem::swap(&mut entries, &mut self.entries);
            let (_old_k, old_v) = entries.remove(p);
            entries.insert(p, (k, v));
            proof {
                assert(entry_keys(entries@) =~= old_keys);
            }
            self.entries = entries;
            proof {
                assert(self.keys() =~= old_keys);
                assert(self.values() =~= old_values.update(p as int, v));
                lemma_map_of_index::<K, V>(old_keys, old_values, p as int);
                assert(self@ =~= old(self)@.insert(k@, v)) by {
                    assert forall|x: K::V| #[trigger] self@.contains_key(x) implies self@[x] == old(
                        self,
                    )@.insert(k@, v)[x] by {
                        let i = self.keys().index_of(x);
                        lemma_sorted_index_of::<K>(old_keys, i);
                    }
                }
            }
            Some(old_v)
        } else {
            proof {
                assert forall|j: int| p <= j < n implies K::key_lt(k@, #[trigger] old_keys[j]) by {
                    K::lemma_key_order(k@, old_keys[j], old_keys[j]);
                    if j > p {
                        K::lemma_key_order(k@, old_keys[p as int], old_keys[j]);
                    }
                }
                assert(!old_keys.contains(k@)) by {
                    if old_keys.contains(k@) {
                        let j = choose|j: int| 0 <= j < n && old_keys[j] == k@;
                        K::lemma_key_order(k@, k@, k@);
                    }
                }
            }
            let mut entries: Vec<(K, V)> = Vec::new();
            std::mem::swap(&mut entries, &mut self.entries);
            entries.insert(p, (k, v));
            proof {
                let nk = entry_keys(entries@);
                assert(nk =~= old_keys.insert(p as int, k@));
                assert(strictly_sorted::<K>(nk)) by {
                    assert forall|i: int, j: int| 0 <= i < j < nk.len() implies K::key_lt(
                        #[trigger] nk[i],
                        #[trigger] nk[j],
                    ) by {
                        if i < p && j > p {
                            K::lemma_key_order(old_keys[i], k@, old_keys[j - 1]);
                        }
                    }
                }
            }
            self.entries = entries;
            proof {
                let nk = self.keys();
                let nv = self.values();
                assert(nk =~= old_keys.insert(p as int, k@));
                assert(nv =~= old_values.insert(p as int, v));
                assert(strictly_sorted::<K>(nk)) by {
                    assert forall|i: int, j: int| 0 <= i < j < nk.len() implies K::key_lt(
                        #[trigger] nk[i],
                        #[trigger] nk[j],
                    ) by {
                        if i < p && j > p {
                            K::lemma_key_order(old_keys[i], k@, old_keys[j - 1]);
                        }
                    }
                }
                assert(self@ =~= old(self)@.insert(k@, v)) by {
                    assert forall|x: K::V| #[trigger] self@.contains_key(x) <==> old(
                        self,
                    )@.insert(k@, v).contains_key(x) by {
                        if nk.contains(x) {
                            let i = choose|i: int| 0 <= i < nk.len() && nk[i] == x;
                            if i < p {
                                assert(old_keys[i] == x);
                            } else if i > p {
                                assert(old_keys[i - 1] == x);
                            }
                        }
                        if old_keys.contains(x) {
                            let i = choose|i: int| 0 <= i < n && old_keys[i] == x;
                            if i < p {
                                assert(nk[i] == x);
                            } else {
                                assert(nk[i + 1] == x);
                            }
                        }
                        if x == k@ {
                            assert(nk[p as int] == x);
                        }
                    }
                    assert forall|x: K::V| #[trigger] self@.contains_key(x) implies self@[x] == old(
                        self,
                    )@.insert(k@, v)[x] by {
                        let i = nk.index_of(x);
                        lemma_sorted_index_of::<K>(nk, i);
                        if i < p {
                            lemma_sorted_index_of::<K>(old_keys, i);
                        } else if i > p {
                            lemma_sorted_index_of::<K>(old_keys, i - 1);
                        }
                    }
                }
            }
            None
        }
    }

    /// Appends an entry whose key follows every key present.
    pub fn push_greatest(&mut self, k: K, v: V)
        requires
            old(self).keys().len() == 0 || K::key_lt(old(self).keys().last(), k@),
        ensures
            final(self).keys() == old(self).keys().push(k@),
            final(self).values() == old(self).values().push(v),
            final(self)@ == old(self)@.insert(k@, v),
    {
        proof {
            use_type_invariant(&*self);
        }
        let ghost old_keys = self.keys();
        let ghost old_values = self.values();
        let mut entries: Vec<(K, V)> = Vec::new();
        std::mem::swap(&mut entries, &mut self.entries);
        entries.push((k, v));
        proof {
            let nk = entry_keys(entries@);
            assert(nk =~= old_keys.push(k@));
            assert forall|i: int, j: int| 0 <= i < j < nk.len() implies K::key_lt(
                #[trigger] nk[i],
                #[trigger] nk[j],
            ) by {
                if j == old_keys.len() && i + 1 < j {
                    K::lemma_key_order(old_keys[i], old_keys.last(), k@);
                }
            }
        }
        self.entries = entries;
        proof {
            let nk = self.keys();
            let nv = self.values();
            assert(nk =~= old_keys.push(k@));
            assert(nv =~= old_values.push(v));
            assert(!old_keys.contains(k@)) by {
                if old_keys.contains(k@) {
                    let j = choose|j: int| 0 <= j < old_keys.len() && old_keys[j] == k@;
                    if j + 1 < old_keys.len() {
                        K::lemma_key_order(k@, old_keys.last(), k@);
                    } else {
                        K::lemma_key_order(k@, k@, k@);
                    }
                }
            }
            assert(self@ =~= old(self)@.insert(k@, v)) by {
                assert forall|x: K::V| #[trigger] self@.contains_key(x) <==> old(
                    self,
                )@.insert(k@, v).contains_key(x) by {
                    if nk.contains(x) && x != k@ {
                        let i = choose|i: int| 0 <= i < nk.len() && nk[i] == x;
                        assert(old_keys[i] == x);
                    }
                    if old_keys.contains(x) {
                        let i = choose|i: int| 0 <= i < old_keys.len() && old_keys[i] == x;
                        assert(nk[i] == x);
                    }
                    if x == k@ {
                        assert(nk[old_keys.len() as int] == x);
                    }
                }
                assert forall|x: K::V| #[trigger] self@.contains_key(x) implies self@[x] == old(
                    self,
                )@.insert(k@, v)[x] by {
                    let i = nk.index_of(x);
                    lemma_sorted_index_of::<K>(nk, i);
                    if i < old_keys.len() {
                        lemma_sorted_index_of::<K>(old_keys, i);
                    }
                }
            }
        }
    }

    /// Removes `k`, returning its value if it was present.
    pub fn remove(&mut self, k: &K) -> (r: Option<V>)
        ensures
            final(self)@ == old(self)@.remove(k@),
            match r {
                Some(o) => old(self)@.contains_key(k@) && o == old(self)@[k@],
                None => !old(self)@.contains_key(k@),
            },
    {
        proof {
            use_type_invariant(&*self);
        }
        let ghost old_keys = self.keys();
        let ghost old_values = self.values();
        match self.index_of(k) {
            None => {
                assert(self@ =~= old(self)@.remove(k@));
                None
            },
            Some(p) => {
                proof {
                    lemma_map_of_index::<K, V>(old_keys, old_values, p as int);
                }
                let mut entries: Vec<(K, V)> = Vec::new();
                std::mem::swap(&mut entries, &mut self.entries);
                let (_k, v) = entries.remove(p);
                proof {
                    let nk = entry_keys(entries@);
                    assert(nk =~= old_keys.remove(p as int));
                    assert(strictly_sorted::<K>(nk)) by {
                        assert forall|i: int, j: int| 0 <= i < j < nk.len() implies K::key_lt(
                            #[trigger] nk[i],
                            #[trigger] nk[j],
                        ) by {
                            if i < p && j >= p {
                                assert(old_keys[i] == nk[i]);
                                assert(old_keys[j + 1] == nk[j]);
                            } else if i >= p {
                                assert(old_keys[i + 1] == nk[i]);
                                assert(old_keys[j + 1] == nk[j]);
                            }
                        }
                    }
                }
                self.entries = entries;
                proof {
                    let nk = self.keys();
                    let nv = self.values();
                    assert(nk =~= old_keys.remove(p as int));
                    assert(nv =~= old_values.remove(p as int));
                    assert(self@ =~= old(self)@.remove(k@)) by {
                        assert forall|x: K::V| #[trigger] self@.contains_key(x) <==> old(
                            self,
                        )@.remove(k@).contains_key(x) by {
                            if nk.contains(x) {
                                let i = choose|i: int| 0 <= i < nk.len() && nk[i] == x;
                                if i < p {
                                    assert(old_keys[i] == x);
                                    K::lemma_key_order(x, x, x);
                                } else {
                                    assert(old_keys[i + 1] == x);
                                    K::lemma_key_order(x, x, x);
                                }
                            }
                            if old_keys.contains(x) && x != k@ {
                                let i = choose|i: int| 0 <= i < old_keys.len() && old_keys[i] == x;
                                if i < p {
                                    assert(nk[i] == x);
                                } else {
                                    assert(nk[i - 1] == x);
                                }
                            }
                        }
                        assert forall|x: K::V| #[trigger] self@.contains_key(x) implies self@[x]
                            == old(self)@.remove(k@)[x] by {
                            let i = nk.index_of(x);
                            lemma_sorted_index_of::<K>(nk, i);
                            if i < p {
                                lemma_sorted_index_of::<K>(old_keys, i);
                            } else {
                                lemma_sorted_index_of::<K>(old_keys, i + 1);
                            }
                        }
                    }
                }
                Some(v)
            },
        }
    }
}

impl<K: OrderedKey, V: CloneView> OrderedMap<K, V> {
    /// A copy of the map: the same keys, each value copied.
    pub fn duplicate(&self) -> (r: Self)
        ensures
            r.keys() == self.keys(),
            deep_view(r@) == deep_view(self@),
    {
        proof {
            use_type_invariant(self);
        }
        let n = self.entries.len();
        let mut entries: Vec<(K, V)> = Vec::new();
        for i in 0..n
            invariant
                n == self.keys().len(),
                entry_keys(entries@) == self.keys().subrange(0, i as int),
                entries@.len() == i,
                forall|j: int| 0 <= j < i ==> (#[trigger] entries@[j]).1@ == self.entries@[j].1@,
        {
            let k = self.entries[i].0.copy_key();
            let v = self.entries[i].1.clone_view();
            let ghost before = entries@;
            entries.push((k, v));
            assert(entry_keys(entries@) =~= self.keys().subrange(0, i + 1)) by {
                assert(entry_keys(entries@) =~= entry_keys(before).push(k@));
            }
        }
        assert(self.keys().subrange(0, n as int) =~= self.keys());
        let r = OrderedMap { entries };
        proof {
            assert(r.keys() == self.keys());
            self.lemma_view();
            r.lemma_view();
            assert(deep_view(r@) =~= deep_view(self@)) by {
                assert forall|k: K::V| #[trigger] r@.contains_key(k) implies r@[k]@ == self@[k]@ by {
                    let i = self.keys().index_of(k);
                    lemma_map_of_index::<K, V>(self.keys(), self.values(), i);
                    lemma_map_of_index::<K, V>(r.keys(), r.values(), i);
                }
            }
        }
        r
    }
}

} // verus!
