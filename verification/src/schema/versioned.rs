//! Maps keyed by a key and a version, kept in key order and then version
//! order, as the schema registries hold them.
use crate::ordered_map::{OrderedKey, OrderedMap, strictly_sorted};
use crate::text::{lemma_seq_lt_order, seq_lt, str_eq};
use crate::types::key::Key;
use vstd::prelude::*;

verus! {

/// A key together with one of its versions.
#[derive(Debug)]
pub struct VersionKey {
    pub key: Key,
    pub version: u32,
}

impl View for VersionKey {
    type V = (Seq<char>, u32);

    open spec fn view(&self) -> (Seq<char>, u32) {
        (self.key@, self.version)
    }
}

/// Key order first, then version order.
pub open spec fn version_key_lt(a: (Seq<char>, u32), b: (Seq<char>, u32)) -> bool {
    seq_lt(a.0, b.0) || (a.0 == b.0 && a.1 < b.1)
}

impl OrderedKey for VersionKey {
    open spec fn key_lt(a: (Seq<char>, u32), b: (Seq<char>, u32)) -> bool {
        version_key_lt(a, b)
    }

    proof fn lemma_key_order(a: (Seq<char>, u32), b: (Seq<char>, u32), c: (Seq<char>, u32)) {
        lemma_seq_lt_order(a.0, b.0, c.0);
        lemma_seq_lt_order(a.0, a.0, a.0);
        lemma_seq_lt_order(b.0, b.0, b.0);
        lemma_seq_lt_order(a.0, b.0, a.0);
        lemma_seq_lt_order(b.0, c.0, b.0);
    }

    fn precedes(&self, other: &Self) -> (r: bool) {
        if self.key.precedes(&other.key) {
            true
        } else if self.key.same_key(&other.key) {
            self.version < other.version
        } else {
            false
        }
    }

    fn same_key(&self, other: &Self) -> (r: bool) {
        self.key.same_key(&other.key) && self.version == other.version
    }

    fn copy_key(&self) -> (r: Self) {
        VersionKey { key: self.key.clone(), version: self.version }
    }
}

/// A map from keys and versions to entries.
pub type VersionMap<V> = OrderedMap<VersionKey, V>;

/// Whether some version of `key` is present.
pub open spec fn has_key<V>(m: Map<(Seq<char>, u32), V>, key: Seq<char>) -> bool {
    exists|v: u32| m.contains_key((key, v))
}

/// `v` is the greatest version of `key` present.
pub open spec fn is_latest<V>(m: Map<(Seq<char>, u32), V>, key: Seq<char>, v: u32) -> bool {
    m.contains_key((key, v)) && forall|w: u32| m.contains_key((key, w)) ==> w <= v
}

/// The keys present, each once whatever its number of versions.
pub open spec fn key_set<V>(m: Map<(Seq<char>, u32), V>) -> Set<Seq<char>> {
    m.dom().map(|p: (Seq<char>, u32)| p.0)
}

proof fn lemma_same_key_order<V>(m: VersionMap<V>, i: int, j: int)
    requires
        strictly_sorted::<VersionKey>(m.keys()),
        0 <= i < j < m.keys().len(),
        m.keys()[i].0 == m.keys()[j].0,
    ensures
        m.keys()[i].1 < m.keys()[j].1,
{
    lemma_seq_lt_order(m.keys()[i].0, m.keys()[i].0, m.keys()[i].0);
}

/// The entry for exactly this key and version.
pub fn versioned_get<'a, V>(m: &'a VersionMap<V>, key: &str, version: u32) -> (r: Option<&'a V>)
    ensures
        match r {
            Some(v) => m@.contains_key((key@, version)) && *v == m@[(key@, version)],
            None => !m@.contains_key((key@, version)),
        },
{
    m.lemma_sorted();
    let n = m.len();
    for i in 0..n
        invariant
            n == m.keys().len(),
            forall|j: int| 0 <= j < i ==> m.keys()[j] != (key@, version),
    {
        let k = m.key_at(i);
        if str_eq(k.key.as_str(), key) && k.version == version {
            m.lemma_sorted();
            return Some(m.value_at(i));
        }
    }
    proof {
        if m@.contains_key((key@, version)) {
            let j = m.keys().index_of((key@, version));
            assert(m.keys()[j] == (key@, version));
        }
    }
    None
}

/// The entry with the greatest version of this key.
pub fn versioned_latest<'a, V>(m: &'a VersionMap<V>, key: &str) -> (r: Option<&'a V>)
    ensures
        match r {
            Some(s) => exists|v: u32| is_latest(m@, key@, v) && *s == m@[(key@, v)],
            None => !has_key(m@, key@),
        },
{
    m.lemma_sorted();
    let n = m.len();
    let mut best: Option<usize> = None;
    for i in 0..n
        invariant
            n == m.keys().len(),
            match best {
                Some(b) => b < i && m.keys()[b as int].0 == key@ && forall|j: int|
                    b < j < i ==> (#[trigger] m.keys()[j]).0 != key@,
                None => forall|j: int| 0 <= j < i ==> (#[trigger] m.keys()[j]).0 != key@,
            },
    {
        if str_eq(m.key_at(i).key.as_str(), key) {
            best = Some(i);
        }
    }
    match best {
        Some(b) => {
            let ghost v = m.keys()[b as int].1;
            proof {
                assert(m.keys()[b as int] == (key@, v));
                assert forall|w: u32| m@.contains_key((key@, w)) implies w <= v by {
                    let j = m.keys().index_of((key@, w));
                    if j > b {
                        assert(m.keys()[j].0 == key@);
                    } else if j < b {
                        lemma_same_key_order(*m, j, b as int);
                    }
                }
            }
            proof {
                assert(m@[(key@, v)] == m.values()[b as int]);
                assert(is_latest(m@, key@, v));
            }
            Some(m.value_at(b))
        },
        None => {
            proof {
                assert forall|w: u32| !m@.contains_key((key@, w)) by {
                    if m@.contains_key((key@, w)) {
                        let j = m.keys().index_of((key@, w));
                        assert(m.keys()[j].0 == key@);
                    }
                }
            }
            None
        },
    }
}

/// The versions of this key, in increasing order.
pub fn versioned_versions<V>(m: &VersionMap<V>, key: &str) -> (r: Vec<u32>)
    ensures
        forall|i: int, j: int| 0 <= i < j < r@.len() ==> r@[i] < r@[j],
        forall|v: u32| r@.contains(v) <==> m@.contains_key((key@, v)),
{
    m.lemma_sorted();
    let n = m.len();
    let mut out: Vec<u32> = Vec::new();
    for i in 0..n
        invariant
            n == m.keys().len(),
            strictly_sorted::<VersionKey>(m.keys()),
            forall|a: int, b: int| 0 <= a < b < out@.len() ==> out@[a] < out@[b],
            forall|v: u32|
                out@.contains(v) <==> exists|j: int| 0 <= j < i && #[trigger] m.keys()[j] == (key@, v),
            out@.len() > 0 ==> exists|j: int|
                0 <= j < i && #[trigger] m.keys()[j] == (key@, out@.last()),
    {
        let k = m.key_at(i);
        if str_eq(k.key.as_str(), key) {
            let ghost before = out@;
            proof {
                if before.len() > 0 {
                    let j = choose|j: int| 0 <= j < i && #[trigger] m.keys()[j] == (key@, before.last());
                    lemma_same_key_order(*m, j, i as int);
                }
            }
            out.push(k.version);
            proof {
                assert(m.keys()[i as int] == (key@, k.version));
                assert forall|v: u32| out@.contains(v) <==> exists|j: int|
                    0 <= j < i + 1 && #[trigger] m.keys()[j] == (key@, v) by {
                    if out@.contains(v) && v != k.version {
                        let a = choose|a: int| 0 <= a < out@.len() && out@[a] == v;
                        assert(before.contains(v)) by {
                            assert(before[a] == v);
                        }
                    }
                    if exists|j: int| 0 <= j < i + 1 && #[trigger] m.keys()[j] == (key@, v) {
                        let j = choose|j: int| 0 <= j < i + 1 && #[trigger] m.keys()[j] == (key@, v);
                        if j < i {
                            assert(before.contains(v));
                            let a = choose|a: int| 0 <= a < before.len() && before[a] == v;
                            assert(out@[a] == v);
                        } else {
                            assert(out@[before.len() as int] == v);
                        }
                    }
                }
            }
        }
    }
    proof {
        assert forall|v: u32| out@.contains(v) <==> m@.contains_key((key@, v)) by {
            if m@.contains_key((key@, v)) {
                let j = m.keys().index_of((key@, v));
                assert(m.keys()[j] == (key@, v));
            }
        }
    }
    out
}

/// How many distinct keys the map holds.
pub fn versioned_key_count<V>(m: &VersionMap<V>) -> (r: usize)
    ensures
        r == key_set(m@).len(),
{
    m.lemma_sorted();
    let n = m.len();
    let ghost keys = m.keys();
    let mut count: usize = 0;
    assert(prefix_keys(keys, 0) =~= Set::<Seq<char>>::empty());
    for i in 0..n
        invariant
            n == keys.len(),
            keys == m.keys(),
            strictly_sorted::<VersionKey>(keys),
            count <= i,
            count == prefix_keys(keys, i as int).len(),
    {
        proof {
            lemma_prefix_keys_step(keys, i as int);
        }
        if i == 0 || !m.key_at(i - 1).key.same_key(&m.key_at(i).key) {
            count = count + 1;
        }
    }
    proof {
        assert(prefix_keys(keys, n as int) =~= key_set(m@)) by {
            assert forall|k: Seq<char>| prefix_keys(keys, n as int).contains(k) implies key_set(m@).contains(k) by {
                let j = choose|j: int| 0 <= j < n && (#[trigger] keys[j]).0 == k;
                assert(m@.contains_key(keys[j]));
            }
            assert forall|k: Seq<char>| key_set(m@).contains(k) implies prefix_keys(keys, n as int).contains(k) by {
                let p = choose|p: (Seq<char>, u32)| m@.dom().contains(p) && k == p.0;
                let j = keys.index_of(p);
                assert(keys[j].0 == k);
            }
        }
    }
    count
}

/// The keys of the first `n` entries.
spec fn prefix_keys(keys: Seq<(Seq<char>, u32)>, n: int) -> Set<Seq<char>> {
    Set::new(|k: Seq<char>| exists|j: int| 0 <= j < n && (#[trigger] keys[j]).0 == k)
}

proof fn lemma_prefix_keys_step(keys: Seq<(Seq<char>, u32)>, i: int)
    requires
        strictly_sorted::<VersionKey>(keys),
        0 <= i < keys.len(),
    ensures
        prefix_keys(keys, i).finite(),
        prefix_keys(keys, i + 1).finite(),
        (i == 0 || keys[i - 1].0 != keys[i].0) ==> prefix_keys(keys, i + 1) == prefix_keys(
            keys,
            i,
        ).insert(keys[i].0) && !prefix_keys(keys, i).contains(keys[i].0),
        !(i == 0 || keys[i - 1].0 != keys[i].0) ==> prefix_keys(keys, i + 1) == prefix_keys(keys, i),
    decreases i,
{
    assert(prefix_keys(keys, i + 1) =~= prefix_keys(keys, i).insert(keys[i].0));
    if i == 0 {
        assert(prefix_keys(keys, 0) =~= Set::<Seq<char>>::empty());
    } else {
        lemma_prefix_keys_step(keys, i - 1);
        if keys[i - 1].0 == keys[i].0 {
            assert(prefix_keys(keys, i).contains(keys[i].0)) by {
                assert(keys[i - 1].0 == keys[i].0);
            }
            assert(prefix_keys(keys, i + 1) =~= prefix_keys(keys, i));
        } else {
            assert(!prefix_keys(keys, i).contains(keys[i].0)) by {
                if prefix_keys(keys, i).contains(keys[i].0) {
                    let j = choose|j: int| 0 <= j < i && (#[trigger] keys[j]).0 == keys[i].0;
                    assert(version_key_lt(keys[j], keys[i - 1]) || j == i - 1);
                    assert(version_key_lt(keys[i - 1], keys[i]));
                    lemma_seq_lt_order(keys[j].0, keys[i - 1].0, keys[i].0);
                    lemma_seq_lt_order(keys[i - 1].0, keys[i].0, keys[i - 1].0);
                    lemma_seq_lt_order(keys[j].0, keys[j].0, keys[j].0);
                    lemma_seq_lt_order(keys[j].0, keys[i - 1].0, keys[j].0);
                }
            }
        }
    }
}

} // verus!
