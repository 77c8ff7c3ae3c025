//! The raw entry abstraction: entry-style handles driven by a caller
//! supplied hash and equality predicate, so that a search needs no
//! borrowed key and an owned key is only built at the point of insertion.
//!
//! The caller promises that the supplied hash is consistent with the
//! eventual key's hash.  The backends here never trust that promise for
//! correctness: the linear backend scans, and the hash backend adapter
//! hashes the key itself when it finally stores it, so an inconsistent
//! hash can cost time but never corrupts the container.

use crate::entry::OccupiedEntry;
use crate::entry::OccupiedEntryInt;
use crate::model::obeys_clone_model;
use crate::model::obeys_eq_model;
use crate::model::obeys_map_model;
use crate::vecmap::VecMap;
use crate::HashMap;
use crate::HashMapInt;
use core::hash::BuildHasher;
use core::hash::Hash;
use vstd::prelude::*;

verus! {

broadcast use vstd::std_specs::hash::group_hash_axioms;

/// Builder for mutable raw entries; holds the exclusive borrow of the
/// container until a search is made.
#[verifier::reject_recursive_types(S)]
pub struct RawEntryBuilderMut<'a, K, V, S> {
    /// The borrowed container.
    pub map: &'a mut HashMap<K, V, S>,
}

/// Builder for shared raw lookups.
#[verifier::reject_recursive_types(S)]
pub struct RawEntryBuilder<'a, K, V, S> {
    /// The borrowed container.
    pub map: &'a HashMap<K, V, S>,
}

/// A raw view into a single slot: occupied (the ordinary occupied handle)
/// or vacant without an owned key.
#[verifier::reject_recursive_types(S)]
pub enum RawEntryMut<'a, K, V, S> {
    /// An occupied slot.
    Occupied(RawOccupiedEntryMut<'a, K, V, S>),
    /// A vacant slot; the key is supplied at insertion.
    Vacant(RawVacantEntryMut<'a, K, V, S>),
}

/// An occupied raw entry offers the same operations as an ordinary
/// occupied entry.
pub type RawOccupiedEntryMut<'a, K, V, S> = OccupiedEntry<'a, K, V, S>;

/// A vacant raw entry: the borrowed backend, with no key yet.
#[verifier::reject_recursive_types(S)]
pub struct RawVacantEntryMut<'a, K, V, S>(pub RawVacantEntryInt<'a, K, V, S>);

/// The backend-specific state of a vacant raw entry.
#[verifier::reject_recursive_types(S)]
pub enum RawVacantEntryInt<'a, K, V, S> {
    /// A missing slot of the hash backend.
    Hashed {
        /// The borrowed hash table.
        table: &'a mut std::collections::HashMap<K, V, S>,
    },
    /// A missing slot of the linear backend.
    Linear {
        /// The borrowed linear store.
        map: &'a mut VecMap<K, V, S>,
    },
}

impl<'a, K: Eq + Hash + Clone, V, S: BuildHasher> RawEntryBuilderMut<'a, K, V, S> {
    /// Searches by key; equivalent to the checked entry search.
    pub fn from_key(self, k: &K) -> (e: RawEntryMut<'a, K, V, S>)
        requires
            self.map.wf(),
        ensures
            obeys_map_model::<K, S>() ==> (e is Occupied <==> old(self.map)@.contains_key(*k)),
            obeys_map_model::<K, S>() && obeys_clone_model::<K>() ==> (e matches RawEntryMut::Occupied(
                o,
            ) ==> o.ok() && o.key_spec() == *k),
            e matches RawEntryMut::Occupied(o) ==> (o.0
                matches OccupiedEntryInt::Linear { map, key, idx } ==> {
                &&& old(self.map).0 is Linear
                &&& *map == old(self.map).0->Linear_0
                &&& *final(self.map) == HashMap(HashMapInt::Linear(*final(map)))
            }),
            e matches RawEntryMut::Occupied(o) ==> (o.0
                matches OccupiedEntryInt::Hashed { table, key } ==> {
                &&& old(self.map).0 is Hashed
                &&& *table == old(self.map).0->Hashed_0
                &&& *final(self.map) == HashMap(HashMapInt::Hashed(*final(table)))
            }),
            e matches RawEntryMut::Vacant(v) ==> (v.0 matches RawVacantEntryInt::Linear { map }
                ==> {
                &&& old(self.map).0 is Linear
                &&& *map == old(self.map).0->Linear_0
                &&& map.wf()
                &&& (obeys_eq_model::<K>() ==> !map@.contains_key(*k))
                &&& *final(self.map) == HashMap(HashMapInt::Linear(*final(map)))
            }),
            e matches RawEntryMut::Vacant(v) ==> (v.0 matches RawVacantEntryInt::Hashed { table }
                ==> {
                &&& old(self.map).0 is Hashed
                &&& *table == old(self.map).0->Hashed_0
                &&& *final(self.map) == HashMap(HashMapInt::Hashed(*final(table)))
            }),
    {
        let owned = k.clone();
        proof {
            if obeys_clone_model::<K>() {
                assert(vstd::pervasive::cloned(*k, owned));
                assert(owned == *k);
            }
        }
        match &mut self.map.0 {
            HashMapInt::Hashed(m) => {
                if m.contains_key(k) {
                    RawEntryMut::Occupied(
                        OccupiedEntry(OccupiedEntryInt::Hashed { table: m, key: owned }),
                    )
                } else {
                    RawEntryMut::Vacant(RawVacantEntryMut(RawVacantEntryInt::Hashed { table: m }))
                }
            },
            HashMapInt::Linear(m) => {
                match m.find(k) {
                    Some(i) => {
                        proof {
                            if obeys_map_model::<K, S>() {
                                crate::model::lemma_seq_to_map_index(m.v@, i as int);
                            }
                        }
                        RawEntryMut::Occupied(
                            OccupiedEntry(OccupiedEntryInt::Linear { map: m, key: owned, idx: i }),
                        )
                    },
                    None => RawEntryMut::Vacant(
                        RawVacantEntryMut(RawVacantEntryInt::Linear { map: m }),
                    ),
                }
            },
            HashMapInt::Transitional => vstd::pervasive::unreached(),
        }
    }

    /// Searches by key, taking the caller's hash on trust; the hash is
    /// not needed here, so this is the checked search.
    pub fn from_key_hashed_nocheck(self, hash: u64, k: &K) -> (e: RawEntryMut<'a, K, V, S>)
        requires
            self.map.wf(),
        ensures
            obeys_map_model::<K, S>() ==> (e is Occupied <==> old(self.map)@.contains_key(*k)),
            obeys_map_model::<K, S>() && obeys_clone_model::<K>() ==> (e matches RawEntryMut::Occupied(
                o,
            ) ==> o.ok() && o.key_spec() == *k),
            e matches RawEntryMut::Occupied(o) ==> (o.0
                matches OccupiedEntryInt::Linear { map, key, idx } ==> {
                &&& old(self.map).0 is Linear
                &&& *map == old(self.map).0->Linear_0
                &&& *final(self.map) == HashMap(HashMapInt::Linear(*final(map)))
            }),
            e matches RawEntryMut::Occupied(o) ==> (o.0
                matches OccupiedEntryInt::Hashed { table, key } ==> {
                &&& old(self.map).0 is Hashed
                &&& *table == old(self.map).0->Hashed_0
                &&& *final(self.map) == HashMap(HashMapInt::Hashed(*final(table)))
            }),
            e matches RawEntryMut::Vacant(v) ==> (v.0 matches RawVacantEntryInt::Linear { map }
                ==> {
                &&& old(self.map).0 is Linear
                &&& *map == old(self.map).0->Linear_0
                &&& map.wf()
                &&& (obeys_eq_model::<K>() ==> !map@.contains_key(*k))
                &&& *final(self.map) == HashMap(HashMapInt::Linear(*final(map)))
            }),
            e matches RawEntryMut::Vacant(v) ==> (v.0 matches RawVacantEntryInt::Hashed { table }
                ==> {
                &&& old(self.map).0 is Hashed
                &&& *table == old(self.map).0->Hashed_0
                &&& *final(self.map) == HashMap(HashMapInt::Hashed(*final(table)))
            }),
    {
        self.from_key(k)
    }

    /// Searches by the caller's equality predicate (the hash is taken on
    /// trust and not needed here); an occupied handle is returned for a
    /// stored key on which `is_match` returned true.
    pub fn from_hash<F: FnMut(&K) -> bool>(self, hash: u64, is_match: F) -> (e: RawEntryMut<
        'a,
        K,
        V,
        S,
    >)
        requires
            self.map.wf(),
            forall|kr: &K| call_requires(is_match, (kr,)),
        ensures
            obeys_map_model::<K, S>() && obeys_clone_model::<K>() ==> (e
                matches RawEntryMut::Occupied(o) ==> o.ok() && call_ensures(
                is_match,
                (&o.key_spec(),),
                true,
            )),
            obeys_map_model::<K, S>() && obeys_clone_model::<K>() ==> (e is Vacant
                ==> forall|k: K| #[trigger]
                old(self.map)@.contains_key(k) ==> exists|kr: &K|
                    *kr == k && call_ensures(is_match, (kr,), false)),
    {
        let ghost mv = self.map@;
        let keys = crate::collect_keys(self.map);
        let mut pred = is_match;
        let n = keys.len();
        let mut i: usize = 0;
        while i < n
            invariant
                pred == is_match,
                n == keys@.len(),
                i <= n,
                self.map.wf(),
                self.map@ == mv,
                forall|kr: &K| call_requires(pred, (kr,)),
                obeys_map_model::<K, S>() ==> {
                    &&& forall|t: int| 0 <= t < keys@.len() ==> mv.contains_key(*#[trigger] keys@[t])
                    &&& forall|k: K| #[trigger] mv.contains_key(k) ==> exists|t: int|
                        0 <= t < keys@.len() && *keys@[t] == k
                    &&& forall|t: int|
                        0 <= t < i ==> exists|kr: &K|
                            *kr == *#[trigger] keys@[t] && call_ensures(pred, (kr,), false)
                },
            decreases n - i,
        {
            let kr = keys[i];
            if pred(kr) {
                let owned = kr.clone();
                proof {
                    if obeys_clone_model::<K>() {
                        assert(vstd::pervasive::cloned(*kr, owned));
                        assert(owned == *kr);
                    }
                    if obeys_map_model::<K, S>() {
                        assert(mv.contains_key(*keys@[i as int]));
                    }
                }
                return match &mut self.map.0 {
                    HashMapInt::Hashed(m) => {
                        if m.contains_key(&owned) {
                            RawEntryMut::Occupied(
                                OccupiedEntry(OccupiedEntryInt::Hashed { table: m, key: owned }),
                            )
                        } else {
                            proof {
                                if obeys_map_model::<K, S>() && obeys_clone_model::<K>() {
                                    assert(false);
                                }
                            }
                            RawEntryMut::Vacant(
                                RawVacantEntryMut(RawVacantEntryInt::Hashed { table: m }),
                            )
                        }
                    },
                    HashMapInt::Linear(m) => match m.find(&owned) {
                        Some(idx) => RawEntryMut::Occupied(
                            OccupiedEntry(OccupiedEntryInt::Linear { map: m, key: owned, idx }),
                        ),
                        None => {
                            proof {
                                if obeys_map_model::<K, S>() && obeys_clone_model::<K>() {
                                    assert(false);
                                }
                            }
                            RawEntryMut::Vacant(
                                RawVacantEntryMut(RawVacantEntryInt::Linear { map: m }),
                            )
                        },
                    },
                    HashMapInt::Transitional => vstd::pervasive::unreached(),
                };
            }
            proof {
                if obeys_map_model::<K, S>() {
                    assert(exists|kr2: &K|
                        *kr2 == *keys@[i as int] && call_ensures(pred, (kr2,), false));
                }
            }
            i += 1;
        }
        proof {
            if obeys_map_model::<K, S>() {
                assert(mv == old(self.map)@);
                assert forall|k: K| #[trigger] mv.contains_key(k) implies exists|kr: &K|
                    *kr == k && call_ensures(is_match, (kr,), false) by {
                    let t = choose|t: int| 0 <= t < keys@.len() && *keys@[t] == k;
                    let kr0 = choose|kr: &K|
                        *kr == *keys@[t] && call_ensures(pred, (kr,), false);
                    assert(*kr0 == k && call_ensures(is_match, (kr0,), false));
                }
            }
        }
        match &mut self.map.0 {
            HashMapInt::Hashed(m) => RawEntryMut::Vacant(
                RawVacantEntryMut(RawVacantEntryInt::Hashed { table: m }),
            ),
            HashMapInt::Linear(m) => RawEntryMut::Vacant(
                RawVacantEntryMut(RawVacantEntryInt::Linear { map: m }),
            ),
            HashMapInt::Transitional => vstd::pervasive::unreached(),
        }
    }
}

impl<'a, K: Eq + Hash, V, S: BuildHasher> RawVacantEntryMut<'a, K, V, S> {
    /// Installs the pair, hashing the owned key, and returns a mutable
    /// reference to the value.
    pub fn insert(self, k: K, v: V) -> (r: &'a mut V)
        requires
            (match self.0 {
                RawVacantEntryInt::Hashed { table } => true,
                RawVacantEntryInt::Linear { map } => map.wf() && (obeys_eq_model::<K>()
                    ==> !map@.contains_key(k)),
            }),
        ensures
            self.0 matches RawVacantEntryInt::Hashed { table } ==> (obeys_map_model::<K, S>()
                ==> {
                &&& *r == if table@.contains_key(k) {
                    table@[k]
                } else {
                    v
                }
                &&& final(table)@ == table@.insert(k, *final(r))
            }),
            self.0 matches RawVacantEntryInt::Linear { map } ==> {
                &&& *r == v
                &&& final(map).v@ == map.v@.push((k, *final(r)))
                &&& final(map).hasher == map.hasher
                &&& final(map).wf()
                &&& (obeys_eq_model::<K>() ==> final(map)@ == map@.insert(k, *final(r)))
            },
    {
        match self.0 {
            RawVacantEntryInt::Hashed { table } => crate::hashed::table_entry_or_insert(
                table,
                k,
                v,
            ),
            RawVacantEntryInt::Linear { map } => {
                proof {
                    let s0 = map.v@;
                    assert forall|w: V| #[trigger]
                        s0.push((k, w)) =~= s0.push((k, v)).update(s0.len() as int, (k, w)) by {}
                    assert forall|w: V|
                        crate::model::seq_to_map(#[trigger] s0.push((k, w)))
                            == crate::model::seq_to_map(s0).insert(k, w) by {
                        crate::model::lemma_seq_to_map_push(s0, k, w);
                    }
                    if obeys_eq_model::<K>() {
                        crate::model::lemma_seq_to_map_contains(s0, k);
                    }
                }
                let i = map.v.len();
                map.v.push((k, v));
                &mut map.v[i].1
            },
        }
    }

    /// Installs the pair, taking the caller's hash on trust; the backend
    /// hashes the key itself, so this is the checked insertion.
    pub fn insert_hashed_nocheck(self, hash: u64, k: K, v: V) -> (r: &'a mut V)
        requires
            (match self.0 {
                RawVacantEntryInt::Hashed { table } => true,
                RawVacantEntryInt::Linear { map } => map.wf() && (obeys_eq_model::<K>()
                    ==> !map@.contains_key(k)),
            }),
        ensures
            self.0 matches RawVacantEntryInt::Hashed { table } ==> (obeys_map_model::<K, S>()
                ==> {
                &&& *r == if table@.contains_key(k) {
                    table@[k]
                } else {
                    v
                }
                &&& final(table)@ == table@.insert(k, *final(r))
            }),
            self.0 matches RawVacantEntryInt::Linear { map } ==> {
                &&& *r == v
                &&& final(map).v@ == map.v@.push((k, *final(r)))
                &&& final(map).hasher == map.hasher
                &&& final(map).wf()
                &&& (obeys_eq_model::<K>() ==> final(map)@ == map@.insert(k, *final(r)))
            },
    {
        self.insert(k, v)
    }
}

impl<'a, K: Eq + Hash, V, S: BuildHasher> RawEntryBuilder<'a, K, V, S> {
    /// Looks the key up and returns the stored pair, if any.
    pub fn from_key(self, k: &K) -> (r: Option<(&'a K, &'a V)>)
        requires
            self.map.wf(),
        ensures
            obeys_map_model::<K, S>() ==> match r {
                Some(p) => self.map@.contains_key(*k) && *p.0 == *k && *p.1 == self.map@[*k],
                None => !self.map@.contains_key(*k),
            },
    {
        match &self.map.0 {
            HashMapInt::Hashed(m) => crate::hashed::table_get_key_value(m, k),
            HashMapInt::Linear(m) => {
                match m.find(k) {
                    Some(i) => {
                        proof {
                            if obeys_map_model::<K, S>() {
                                crate::model::lemma_seq_to_map_index(m.v@, i as int);
                            }
                        }
                        let p = &m.v[i];
                        Some((&p.0, &p.1))
                    },
                    None => None,
                }
            },
            HashMapInt::Transitional => vstd::pervasive::unreached(),
        }
    }

    /// Looks the key up, taking the caller's hash on trust.
    pub fn from_key_hashed_nocheck(self, hash: u64, k: &K) -> (r: Option<(&'a K, &'a V)>)
        requires
            self.map.wf(),
        ensures
            obeys_map_model::<K, S>() ==> match r {
                Some(p) => self.map@.contains_key(*k) && *p.0 == *k && *p.1 == self.map@[*k],
                None => !self.map@.contains_key(*k),
            },
    {
        self.from_key(k)
    }

    /// Searches by the caller's equality predicate and returns the first
    /// matching stored pair, if any.
    pub fn from_hash<F: FnMut(&K) -> bool>(self, hash: u64, is_match: F) -> (r: Option<
        (&'a K, &'a V),
    >)
        requires
            self.map.wf(),
            forall|kr: &K| call_requires(is_match, (kr,)),
        ensures
            obeys_map_model::<K, S>() ==> match r {
                Some(p) => self.map@.contains_key(*p.0) && *p.1 == self.map@[*p.0] && call_ensures(
                    is_match,
                    (p.0,),
                    true,
                ),
                None => forall|k: K| #[trigger]
                    self.map@.contains_key(k) ==> exists|kr: &K|
                        *kr == k && call_ensures(is_match, (kr,), false),
            },
    {
        let it = self.map.iter();
        let ghost es = it.elems();
        let n = it.pairs.len();
        let mut pred = is_match;
        let mut i: usize = 0;
        while i < n
            invariant
                pred == is_match,
                n == it.pairs@.len(),
                es == it.elems(),
                i <= n,
                self.map.wf(),
                forall|kr: &K| call_requires(pred, (kr,)),
                obeys_map_model::<K, S>() ==> crate::model::enumerates(es, self.map@),
                obeys_map_model::<K, S>() ==> forall|t: int|
                    0 <= t < i ==> exists|kr: &K|
                        *kr == #[trigger] es[t].0 && call_ensures(pred, (kr,), false),
            decreases n - i,
        {
            let p = it.pairs[i];
            if pred(p.0) {
                proof {
                    if obeys_map_model::<K, S>() {
                        assert(self.map@.contains_key(es[i as int].0));
                    }
                }
                return Some(p);
            }
            proof {
                if obeys_map_model::<K, S>() {
                    assert(es[i as int].0 == *p.0);
                    assert(exists|kr2: &K|
                        *kr2 == es[i as int].0 && call_ensures(pred, (kr2,), false));
                }
            }
            i += 1;
        }
        proof {
            if obeys_map_model::<K, S>() {
                assert forall|k: K| #[trigger] self.map@.contains_key(k) implies exists|kr: &K|
                    *kr == k && call_ensures(is_match, (kr,), false) by {
                    let t = choose|t: int| 0 <= t < es.len() && es[t].0 == k;
                    let kr0 = choose|kr: &K| *kr == es[t].0 && call_ensures(pred, (kr,), false);
                    assert(*kr0 == k && call_ensures(is_match, (kr0,), false));
                }
            }
        }
        None
    }
}

} // verus!
