//! The entry abstraction: a view into one key's slot, either occupied or
//! vacant, over whichever backend is active.  A handle borrows the backend
//! exclusively for its lifetime; its contracts relate the backend's state
//! when the handle was made to its state when the borrow expires.

use crate::model::obeys_eq_model;
use crate::model::obeys_map_model;
use crate::vecmap::VecMap;
use core::hash::BuildHasher;
use core::hash::Hash;
use vstd::prelude::*;

verus! {

broadcast use vstd::std_specs::hash::group_hash_axioms;

/// A view into a single entry in a map, which may either be vacant or
/// occupied.
#[verifier::reject_recursive_types(S)]
pub enum Entry<'a, K, V, S> {
    /// An occupied entry.
    Occupied(OccupiedEntry<'a, K, V, S>),
    /// A vacant entry.
    Vacant(VacantEntry<'a, K, V, S>),
}

/// A view into an occupied entry.  The inner tag records which backend
/// the handle points into.
#[verifier::reject_recursive_types(S)]
pub struct OccupiedEntry<'a, K, V, S>(pub OccupiedEntryInt<'a, K, V, S>);

/// The backend-specific state of an occupied entry.
#[verifier::reject_recursive_types(S)]
pub enum OccupiedEntryInt<'a, K, V, S> {
    /// A slot of the hash backend, found again by its key.
    Hashed {
        /// The borrowed hash table.
        table: &'a mut std::collections::HashMap<K, V, S>,
        /// The key the entry was made with.
        key: K,
    },
    /// A slot of the linear backend, pinned by its index.
    Linear {
        /// The borrowed linear store.
        map: &'a mut VecMap<K, V, S>,
        /// The key the entry was made with.
        key: K,
        /// The index of the pair inside the linear store.
        idx: usize,
    },
}

/// A view into a vacant entry.  The inner tag records which backend the
/// handle points into.
#[verifier::reject_recursive_types(S)]
pub struct VacantEntry<'a, K, V, S>(pub VacantEntryInt<'a, K, V, S>);

/// The backend-specific state of a vacant entry.
#[verifier::reject_recursive_types(S)]
pub enum VacantEntryInt<'a, K, V, S> {
    /// A missing slot of the hash backend.
    Hashed {
        /// The borrowed hash table.
        table: &'a mut std::collections::HashMap<K, V, S>,
        /// The key the entry was made with.
        key: K,
    },
    /// A missing slot of the linear backend.
    Linear {
        /// The borrowed linear store.
        map: &'a mut VecMap<K, V, S>,
        /// The key the entry was made with.
        key: K,
    },
}

impl<'a, K: PartialEq, V, S> OccupiedEntry<'a, K, V, S> {
    /// The key the entry was made with.
    pub open spec fn key_spec(self) -> K {
        match self.0 {
            OccupiedEntryInt::Hashed { table: map, key } => key,
            OccupiedEntryInt::Linear { map, key, idx } => key,
        }
    }

    /// The backend contents seen through the handle.
    pub open spec fn map_view(self) -> Map<K, V> {
        match self.0 {
            OccupiedEntryInt::Hashed { table: map, key } => map@,
            OccupiedEntryInt::Linear { map, key, idx } => map@,
        }
    }

    /// What an occupied handle built by `entry` guarantees: the linear
    /// index is in bounds and names the key's pair; under the model, the
    /// key is present.
    pub open spec fn ok(self) -> bool {
        match self.0 {
            OccupiedEntryInt::Hashed { table: map, key } => obeys_map_model::<K, S>()
                ==> map@.contains_key(key),
            OccupiedEntryInt::Linear { map, key, idx } => {
                &&& map.wf()
                &&& idx < map.v@.len()
                &&& obeys_eq_model::<K>() ==> map.v@[idx as int].0 == key
            },
        }
    }

    /// Like `ok`, and in addition the key model holds, so that the hash
    /// backend is guaranteed to find the slot again.
    pub open spec fn valid(self) -> bool {
        match self.0 {
            OccupiedEntryInt::Hashed { table: map, key } => obeys_map_model::<K, S>()
                && map@.contains_key(key),
            OccupiedEntryInt::Linear { map, key, idx } => {
                &&& map.wf()
                &&& idx < map.v@.len()
                &&& obeys_eq_model::<K>() ==> map.v@[idx as int].0 == key
            },
        }
    }

    /// The value currently stored in the slot.
    pub open spec fn value_spec(self) -> V {
        match self.0 {
            OccupiedEntryInt::Hashed { table: map, key } => map@[key],
            OccupiedEntryInt::Linear { map, key, idx } => map.v@[idx as int].1,
        }
    }
}

impl<'a, K: PartialEq, V, S> VacantEntry<'a, K, V, S> {
    /// The key the entry was made with.
    pub open spec fn key_spec(self) -> K {
        match self.0 {
            VacantEntryInt::Hashed { table: map, key } => key,
            VacantEntryInt::Linear { map, key } => key,
        }
    }

    /// The backend contents seen through the handle.
    pub open spec fn map_view(self) -> Map<K, V> {
        match self.0 {
            VacantEntryInt::Hashed { table: map, key } => map@,
            VacantEntryInt::Linear { map, key } => map@,
        }
    }

    /// What a vacant handle built by `entry` guarantees: the linear store
    /// is well formed, and under the model the key is absent.
    pub open spec fn ok(self) -> bool {
        match self.0 {
            VacantEntryInt::Hashed { table: map, key } => obeys_map_model::<K, S>()
                ==> !map@.contains_key(key),
            VacantEntryInt::Linear { map, key } => {
                &&& map.wf()
                &&& obeys_eq_model::<K>() ==> !map@.contains_key(key)
            },
        }
    }
}

impl<'a, K: PartialEq, V, S> Entry<'a, K, V, S> {
    /// The key the entry was made with.
    pub open spec fn key_spec(self) -> K {
        match self {
            Entry::Occupied(o) => o.key_spec(),
            Entry::Vacant(v) => v.key_spec(),
        }
    }

    /// The backend contents seen through the handle.
    pub open spec fn map_view(self) -> Map<K, V> {
        match self {
            Entry::Occupied(o) => o.map_view(),
            Entry::Vacant(v) => v.map_view(),
        }
    }

    /// What a handle built by `entry` guarantees.
    pub open spec fn ok(self) -> bool {
        match self {
            Entry::Occupied(o) => o.ok(),
            Entry::Vacant(v) => v.ok(),
        }
    }
}

impl<'a, K: Eq + Hash, V, S: BuildHasher> VacantEntry<'a, K, V, S> {
    /// Reference to the key that would be used on insertion.
    pub fn key(&self) -> (r: &K)
        ensures
            *r == self.key_spec(),
    {
        match &self.0 {
            VacantEntryInt::Hashed { table: map, key } => key,
            VacantEntryInt::Linear { map, key } => key,
        }
    }

    /// Takes ownership of the key; the borrowed backend is left exactly
    /// as it was.
    pub fn into_key(self) -> (r: K)
        ensures
            r == self.key_spec(),
            self.0 matches VacantEntryInt::Hashed { table, key } ==> *final(table) == *table,
            self.0 matches VacantEntryInt::Linear { map, key } ==> *final(map) == *map,
    {
        match self.0 {
            VacantEntryInt::Hashed { table: map, key } => key,
            VacantEntryInt::Linear { map, key } => key,
        }
    }

    /// Installs `value` under the entry's key and returns a mutable
    /// reference to it.
    pub fn insert(self, value: V) -> (r: &'a mut V)
        requires
            self.ok(),
        ensures
            self.0 matches VacantEntryInt::Hashed { table, key } ==> (obeys_map_model::<K, S>()
                ==> {
                &&& *r == value
                &&& final(table)@ == table@.insert(key, *final(r))
            }),
            self.0 matches VacantEntryInt::Linear { map, key } ==> {
                &&& *r == value
                &&& final(map).v@ == map.v@.push((key, *final(r)))
                &&& final(map).hasher == map.hasher
                &&& final(map).wf()
                &&& (obeys_eq_model::<K>() ==> final(map)@ == map@.insert(key, *final(r)))
            },
    {
        match self.0 {
            VacantEntryInt::Hashed { table: map, key } => crate::hashed::table_entry_or_insert(
                map,
                key,
                value,
            ),
            VacantEntryInt::Linear { map, key } => {
                proof {
                    let s0 = map.v@;
                    assert forall|w: V| #[trigger]
                        s0.push((key, w)) =~= s0.push((key, value)).update(
                            s0.len() as int,
                            (key, w),
                        ) by {}
                    assert forall|w: V|
                        crate::model::seq_to_map(#[trigger] s0.push((key, w)))
                            == crate::model::seq_to_map(s0).insert(key, w) by {
                        crate::model::lemma_seq_to_map_push(s0, key, w);
                    }
                    if obeys_eq_model::<K>() {
                        crate::model::lemma_seq_to_map_contains(s0, key);
                        assert forall|w: V| crate::model::unique_keys(
                            #[trigger] s0.push((key, w)),
                        ) by {}
                    }
                }
                let i = map.v.len();
                map.v.push((key, value));
                &mut map.v[i].1
            },
        }
    }
}

impl<'a, K: Eq + Hash, V, S: BuildHasher> OccupiedEntry<'a, K, V, S> {
    /// Reference to the key the entry was made with.
    pub fn key(&self) -> (r: &K)
        ensures
            *r == self.key_spec(),
    {
        match &self.0 {
            OccupiedEntryInt::Hashed { table, key } => key,
            OccupiedEntryInt::Linear { map, key, idx } => key,
        }
    }

    /// Reference to the value in the slot.
    pub fn get(&self) -> (r: &V)
        requires
            self.valid(),
        ensures
            *r == self.value_spec(),
    {
        match &self.0 {
            OccupiedEntryInt::Hashed { table, key } => match table.get(key) {
                Some(v) => v,
                None => vstd::pervasive::unreached(),
            },
            OccupiedEntryInt::Linear { map, key, idx } => &map.v[*idx].1,
        }
    }

    /// Converts the handle into a mutable reference to the value, bound to
    /// the backend's borrow.
    pub fn into_mut(self) -> (r: &'a mut V)
        requires
            self.valid(),
        ensures
            *r == self.value_spec(),
            self.0 matches OccupiedEntryInt::Linear { map, key, idx } ==> {
                &&& final(map).v@ == map.v@.update(idx as int, (map.v@[idx as int].0, *final(r)))
                &&& final(map).hasher == map.hasher
                &&& final(map).wf()
                &&& (obeys_eq_model::<K>() ==> final(map)@ == map@.insert(key, *final(r)))
            },
            self.0 matches OccupiedEntryInt::Hashed { table, key } ==> final(table)@
                == table@.insert(key, *final(r)),
    {
        match self.0 {
            OccupiedEntryInt::Hashed { table, key } => match crate::hashed::table_get_mut(
                table,
                &key,
            ) {
                Some(v) => v,
                None => vstd::pervasive::unreached(),
            },
            OccupiedEntryInt::Linear { map, key, idx } => {
                proof {
                    lemma_linear_update(map.v@, idx as int);
                }
                &mut map.v[idx].1
            },
        }
    }

    /// Mutable reference to the value in the slot; the handle stays
    /// usable.
    pub fn get_mut(&mut self) -> (r: &mut V)
        requires
            old(self).valid(),
        ensures
            *r == old(self).value_spec(),
            old(self).0 matches OccupiedEntryInt::Linear { map, key, idx } ==> (final(self).0 matches OccupiedEntryInt::Linear { map: m2, key: k2, idx: i2 } && {
                &&& k2 == key
                &&& i2 == idx
                &&& m2.v@ == map.v@.update(idx as int, (map.v@[idx as int].0, *final(r)))
                &&& m2.hasher == map.hasher
                &&& m2.wf()
                &&& *final(map) == *final(m2)
                &&& (obeys_eq_model::<K>() ==> m2@ == map@.insert(key, *final(r)))
            }),
            old(self).0 matches OccupiedEntryInt::Hashed { table, key } ==> (final(self).0 matches OccupiedEntryInt::Hashed { table: t2, key: k2 } && {
                &&& k2 == key
                &&& t2@ == table@.insert(key, *final(r))
                &&& *final(table) == *final(t2)
            }),
    {
        match &mut self.0 {
            OccupiedEntryInt::Hashed { table, key } => match crate::hashed::table_get_mut(
                table,
                key,
            ) {
                Some(v) => v,
                None => vstd::pervasive::unreached(),
            },
            OccupiedEntryInt::Linear { map, key, idx } => {
                proof {
                    lemma_linear_update(map.v@, *idx as int);
                }
                &mut map.v[*idx].1
            },
        }
    }

    /// Replaces the value in the slot and returns the prior value; the
    /// handle stays usable.
    pub fn insert(&mut self, value: V) -> (r: V)
        requires
            old(self).valid(),
        ensures
            r == old(self).value_spec(),
            old(self).0 matches OccupiedEntryInt::Linear { map, key, idx } ==> (final(self).0 matches OccupiedEntryInt::Linear { map: m2, key: k2, idx: i2 } && {
                &&& k2 == key
                &&& i2 == idx
                &&& m2.v@ == map.v@.update(idx as int, (map.v@[idx as int].0, value))
                &&& m2.hasher == map.hasher
                &&& m2.wf()
                &&& *final(map) == *final(m2)
                &&& (obeys_eq_model::<K>() ==> m2@ == map@.insert(key, value))
            }),
            old(self).0 matches OccupiedEntryInt::Hashed { table, key } ==> (final(self).0 matches OccupiedEntryInt::Hashed { table: t2, key: k2 } && {
                &&& k2 == key
                &&& t2@ == table@.insert(key, value)
                &&& *final(table) == *final(t2)
            }),
    {
        let mut tmp = value;
        match &mut self.0 {
            OccupiedEntryInt::Hashed { table, key } => match crate::hashed::table_get_mut(
                table,
                key,
            ) {
                Some(v) => {
                    core::mem::swap(v, &mut tmp);
                },
                None => {
                    vstd::pervasive::unreached()
                },
            },
            OccupiedEntryInt::Linear { map, key, idx } => {
                proof {
                    lemma_linear_update(map.v@, *idx as int);
                }
                core::mem::swap(&mut map.v[*idx].1, &mut tmp);
            },
        }
        tmp
    }

    /// Removes the pair from the map and returns its value.
    pub fn remove(self) -> (r: V)
        requires
            self.valid(),
        ensures
            r == self.value_spec(),
            self.0 matches OccupiedEntryInt::Linear { map, key, idx } ==> {
                &&& final(map).v@ == map.v@.update(idx as int, map.v@.last()).drop_last()
                &&& final(map).hasher == map.hasher
                &&& final(map).wf()
                &&& (obeys_eq_model::<K>() ==> final(map)@ == map@.remove(key))
            },
            self.0 matches OccupiedEntryInt::Hashed { table, key } ==> final(table)@
                == table@.remove(key),
    {
        self.remove_entry().1
    }

    /// Removes the pair from the map and returns it; the returned key is
    /// the one stored in the map.
    pub fn remove_entry(self) -> (r: (K, V))
        requires
            self.valid(),
        ensures
            r.1 == self.value_spec(),
            self.0 matches OccupiedEntryInt::Linear { map, key, idx } ==> {
                &&& r.0 == map.v@[idx as int].0
                &&& final(map).v@ == map.v@.update(idx as int, map.v@.last()).drop_last()
                &&& final(map).hasher == map.hasher
                &&& final(map).wf()
                &&& (obeys_eq_model::<K>() ==> final(map)@ == map@.remove(key))
            },
            self.0 matches OccupiedEntryInt::Hashed { table, key } ==> {
                &&& r.0 == key
                &&& final(table)@ == table@.remove(key)
            },
    {
        match self.0 {
            OccupiedEntryInt::Hashed { table, key } => match crate::hashed::table_remove_entry(
                table,
                &key,
            ) {
                Some(p) => p,
                None => vstd::pervasive::unreached(),
            },
            OccupiedEntryInt::Linear { map, key, idx } => {
                proof {
                    if obeys_eq_model::<K>() {
                        crate::model::lemma_seq_to_map_index(map.v@, idx as int);
                        crate::model::lemma_seq_to_map_swap_remove(map.v@, idx as int);
                    }
                }
                map.v.swap_remove(idx)
            },
        }
    }

    /// Replaces both the value and the stored key's identity with the
    /// entry's own key, returning the prior pair.
    pub fn replace_entry(self, value: V) -> (r: (K, V))
        requires
            self.valid(),
        ensures
            r.1 == self.value_spec(),
            self.0 matches OccupiedEntryInt::Linear { map, key, idx } ==> {
                &&& r.0 == map.v@[idx as int].0
                &&& final(map).v@ == map.v@.update(idx as int, (key, value))
                &&& final(map).hasher == map.hasher
                &&& final(map).wf()
                &&& (obeys_eq_model::<K>() ==> final(map)@ == map@.insert(key, value))
            },
            self.0 matches OccupiedEntryInt::Hashed { table, key } ==> {
                &&& r.0 == key
                &&& final(table)@ == table@.insert(key, value)
            },
    {
        match self.0 {
            OccupiedEntryInt::Hashed { table, key } => {
                match crate::hashed::table_remove_entry(table, &key) {
                    Some((ks, vs)) => {
                        table.insert(key, value);
                        (ks, vs)
                    },
                    None => vstd::pervasive::unreached(),
                }
            },
            OccupiedEntryInt::Linear { map, key, idx } => {
                proof {
                    if obeys_eq_model::<K>() {
                        crate::model::lemma_seq_to_map_index(map.v@, idx as int);
                        crate::model::lemma_seq_to_map_update(map.v@, idx as int, (key, value));
                    }
                }
                let mut k2 = key;
                let mut v2 = value;
                core::mem::swap(&mut map.v[idx].0, &mut k2);
                core::mem::swap(&mut map.v[idx].1, &mut v2);
                (k2, v2)
            },
        }
    }

    /// Replaces the stored key's identity with the entry's own key,
    /// keeping the value, and returns the prior key.
    pub fn replace_key(self) -> (r: K)
        requires
            self.valid(),
        ensures
            self.0 matches OccupiedEntryInt::Linear { map, key, idx } ==> {
                &&& r == map.v@[idx as int].0
                &&& final(map).v@ == map.v@.update(idx as int, (key, map.v@[idx as int].1))
                &&& final(map).hasher == map.hasher
                &&& final(map).wf()
                &&& (obeys_eq_model::<K>() ==> final(map)@ == map@)
            },
            self.0 matches OccupiedEntryInt::Hashed { table, key } ==> {
                &&& r == key
                &&& final(table)@ == table@.insert(key, table@[key])
            },
    {
        match self.0 {
            OccupiedEntryInt::Hashed { table, key } => {
                match crate::hashed::table_remove_entry(table, &key) {
                    Some((ks, vs)) => {
                        table.insert(key, vs);
                        ks
                    },
                    None => vstd::pervasive::unreached(),
                }
            },
            OccupiedEntryInt::Linear { map, key, idx } => {
                proof {
                    if obeys_eq_model::<K>() {
                        crate::model::lemma_seq_to_map_index(map.v@, idx as int);
                        crate::model::lemma_seq_to_map_update(
                            map.v@,
                            idx as int,
                            (key, map.v@[idx as int].1),
                        );
                    }
                }
                let mut k2 = key;
                core::mem::swap(&mut map.v[idx].0, &mut k2);
                k2
            },
        }
    }
}

impl<'a, K: Eq + Hash, V, S: BuildHasher> Entry<'a, K, V, S> {
    /// Reference to the entry's key.
    pub fn key(&self) -> (r: &K)
        ensures
            *r == self.key_spec(),
    {
        match self {
            Entry::Occupied(o) => o.key(),
            Entry::Vacant(v) => v.key(),
        }
    }

    /// Returns a mutable reference to the value in the slot, inserting
    /// `default` first when the entry is vacant.
    pub fn or_insert(self, default: V) -> (r: &'a mut V)
        requires
            self.ok(),
        ensures
            self matches Entry::Occupied(o) ==> (o.0 matches OccupiedEntryInt::Linear {
                map,
                key,
                idx,
            } ==> {
                &&& *r == map.v@[idx as int].1
                &&& final(map).v@ == map.v@.update(idx as int, (map.v@[idx as int].0, *final(r)))
                &&& final(map).hasher == map.hasher
                &&& final(map).wf()
                &&& (obeys_eq_model::<K>() ==> final(map)@ == map@.insert(key, *final(r)))
            }),
            self matches Entry::Occupied(o) ==> (o.0 matches OccupiedEntryInt::Hashed {
                table,
                key,
            } ==> (obeys_map_model::<K, S>() ==> {
                &&& *r == table@[key]
                &&& final(table)@ == table@.insert(key, *final(r))
            })),
            self matches Entry::Vacant(v) ==> (v.0 matches VacantEntryInt::Linear { map, key }
                ==> {
                &&& *r == default
                &&& final(map).v@ == map.v@.push((key, *final(r)))
                &&& final(map).hasher == map.hasher
                &&& final(map).wf()
                &&& (obeys_eq_model::<K>() ==> final(map)@ == map@.insert(key, *final(r)))
            }),
            self matches Entry::Vacant(v) ==> (v.0 matches VacantEntryInt::Hashed { table, key }
                ==> (obeys_map_model::<K, S>() ==> {
                &&& *r == default
                &&& final(table)@ == table@.insert(key, *final(r))
            })),
    {
        match self {
            Entry::Occupied(o) => match o.0 {
                OccupiedEntryInt::Hashed { table, key } => crate::hashed::table_entry_or_insert(
                    table,
                    key,
                    default,
                ),
                OccupiedEntryInt::Linear { map, key, idx } => {
                    proof {
                        lemma_linear_update(map.v@, idx as int);
                    }
                    &mut map.v[idx].1
                },
            },
            Entry::Vacant(v) => v.insert(default),
        }
    }

    /// Like `or_insert`, but the default is computed by `f`, which is
    /// called at most once and only when the entry is vacant.
    pub fn or_insert_with<F: FnOnce() -> V>(self, default: F) -> (r: &'a mut V)
        requires
            self.ok(),
            (obeys_map_model::<K, S>() ==> self is Vacant) ==> call_requires(default, ()),
        ensures
            self matches Entry::Occupied(o) ==> (o.0 matches OccupiedEntryInt::Linear {
                map,
                key,
                idx,
            } ==> {
                &&& *r == map.v@[idx as int].1
                &&& final(map).v@ == map.v@.update(idx as int, (map.v@[idx as int].0, *final(r)))
                &&& final(map).hasher == map.hasher
                &&& final(map).wf()
                &&& (obeys_eq_model::<K>() ==> final(map)@ == map@.insert(key, *final(r)))
            }),
            self matches Entry::Occupied(o) ==> (o.0 matches OccupiedEntryInt::Hashed {
                table,
                key,
            } ==> (obeys_map_model::<K, S>() ==> {
                &&& *r == table@[key]
                &&& final(table)@ == table@.insert(key, *final(r))
            })),
            self matches Entry::Vacant(v) ==> (v.0 matches VacantEntryInt::Linear { map, key }
                ==> {
                &&& call_ensures(default, (), *r)
                &&& final(map).v@ == map.v@.push((key, *final(r)))
                &&& final(map).hasher == map.hasher
                &&& final(map).wf()
                &&& (obeys_eq_model::<K>() ==> final(map)@ == map@.insert(key, *final(r)))
            }),
            self matches Entry::Vacant(v) ==> (v.0 matches VacantEntryInt::Hashed { table, key }
                ==> (obeys_map_model::<K, S>() ==> {
                &&& call_ensures(default, (), *r)
                &&& final(table)@ == table@.insert(key, *final(r))
            })),
    {
        match self {
            Entry::Occupied(o) => match o.0 {
                OccupiedEntryInt::Hashed { table, key } => {
                    let ghost t0 = table@;
                    match crate::hashed::table_remove_entry(table, &key) {
                        Some((ks, vs)) => {
                            proof {
                                if obeys_map_model::<K, S>() {
                                    assert forall|w: V| #[trigger]
                                        t0.remove(key).insert(key, w) =~= t0.insert(key, w) by {}
                                }
                            }
                            crate::hashed::table_entry_or_insert(table, ks, vs)
                        },
                        None => {
                            let d = default();
                            crate::hashed::table_entry_or_insert(table, key, d)
                        },
                    }
                },
                OccupiedEntryInt::Linear { map, key, idx } => {
                    proof {
                        lemma_linear_update(map.v@, idx as int);
                    }
                    &mut map.v[idx].1
                },
            },
            Entry::Vacant(v) => {
                let d = default();
                v.insert(d)
            },
        }
    }

    /// Applies `f` to the value in place when the entry is occupied, and
    /// returns the entry unchanged in shape; a vacant entry passes
    /// through untouched.
    pub fn and_modify<F: FnOnce(&mut V)>(self, f: F) -> (r: Self)
        requires
            self.ok(),
            self matches Entry::Occupied(o) ==> (o.0 matches OccupiedEntryInt::Linear {
                map,
                key,
                idx,
            } ==> forall|mv: &mut V| *mv == map.v@[idx as int].1 ==> call_requires(f, (mv,))),
            self matches Entry::Occupied(o) ==> (o.0 matches OccupiedEntryInt::Hashed {
                table,
                key,
            } ==> forall|mv: &mut V|
                (obeys_map_model::<K, S>() ==> *mv == table@[key]) ==> call_requires(f, (mv,))),
        ensures
            r.ok(),
            r is Occupied <==> self is Occupied,
            self matches Entry::Vacant(v) ==> r == Entry::<'a, K, V, S>::Vacant(v),
            self matches Entry::Occupied(o) ==> (o.0 matches OccupiedEntryInt::Linear {
                map,
                key,
                idx,
            } ==> (r matches Entry::Occupied(o2) && o2.0 matches OccupiedEntryInt::Linear {
                map: m2,
                key: k2,
                idx: i2,
            } && {
                &&& k2 == key
                &&& i2 == idx
                &&& *final(map) == *final(m2)
                &&& m2.hasher == map.hasher
                &&& m2.wf()
                &&& exists|mv: &mut V|
                    {
                        &&& *mv == map.v@[idx as int].1
                        &&& call_ensures(f, (mv,), ())
                        &&& m2.v@ == map.v@.update(idx as int, (map.v@[idx as int].0, *final(mv)))
                    }
                &&& (obeys_eq_model::<K>() ==> m2@ == map@.insert(key, m2.v@[idx as int].1))
            })),
            self matches Entry::Occupied(o) ==> (o.0 matches OccupiedEntryInt::Hashed {
                table,
                key,
            } ==> (r matches Entry::Occupied(o2) && o2.0 matches OccupiedEntryInt::Hashed {
                table: t2,
                key: k2,
            } && {
                &&& k2 == key
                &&& *final(table) == *final(t2)
                &&& (obeys_map_model::<K, S>() ==> table@.contains_key(key) ==> exists|mv: &mut V|
                    {
                        &&& *mv == table@[key]
                        &&& call_ensures(f, (mv,), ())
                        &&& t2@ == table@.insert(key, *final(mv))
                    })
            })),
    {
        match self {
            Entry::Occupied(o) => match o.0 {
                OccupiedEntryInt::Hashed { table, key } => {
                    match crate::hashed::table_get_mut(table, &key) {
                        Some(v) => f(v),
                        None => {},
                    }
                    Entry::Occupied(OccupiedEntry(OccupiedEntryInt::Hashed { table, key }))
                },
                OccupiedEntryInt::Linear { map, key, idx } => {
                    proof {
                        lemma_linear_update(map.v@, idx as int);
                        if obeys_eq_model::<K>() {
                            crate::model::lemma_seq_to_map_index(map.v@, idx as int);
                        }
                    }
                    f(&mut map.v[idx].1);
                    Entry::Occupied(OccupiedEntry(OccupiedEntryInt::Linear { map, key, idx }))
                },
            },
            Entry::Vacant(v) => Entry::Vacant(v),
        }
    }
}

/// The value at an index can be overwritten by any value while keeping
/// the key: the represented map gains exactly that binding.
proof fn lemma_linear_update<K: PartialEq, V>(s: Seq<(K, V)>, i: int)
    requires
        obeys_eq_model::<K>() ==> crate::model::unique_keys(s),
        0 <= i < s.len(),
    ensures
        obeys_eq_model::<K>() ==> forall|w: V|
            crate::model::unique_keys(#[trigger] s.update(i, (s[i].0, w)))
                && crate::model::seq_to_map(s.update(i, (s[i].0, w))) == crate::model::seq_to_map(
                s,
            ).insert(s[i].0, w),
{
    if obeys_eq_model::<K>() {
        assert forall|w: V|
            crate::model::unique_keys(#[trigger] s.update(i, (s[i].0, w)))
                && crate::model::seq_to_map(s.update(i, (s[i].0, w))) == crate::model::seq_to_map(
                s,
            ).insert(s[i].0, w) by {
            crate::model::lemma_seq_to_map_update(s, i, (s[i].0, w));
        }
    }
}

} // verus!
