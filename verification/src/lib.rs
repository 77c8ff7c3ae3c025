//! An adaptive associative container: a map that stores few entries in a
//! plain sequence searched by scanning, and switches — once, irreversibly —
//! to a hash table when an insertion would grow the sequence past a fixed
//! threshold.  Callers see one key/value interface whichever backend is
//! active; `is_vec` and `is_map` exist only to observe the backend.
//!
//! The contracts model the container as a `Map<K, V>`.  They are stated,
//! in the style of vstd's hash-table specifications, under the key model
//! `crate::model::obeys_map_model`, which holds for primitive keys with
//! the default hasher.

pub mod entry;
pub mod laws;
pub mod raw_entry;
pub mod model;
mod hashed;
pub mod iter;
pub mod vecmap;

pub use crate::entry::Entry;
pub use crate::entry::OccupiedEntry;
pub use crate::entry::VacantEntry;
pub use crate::iter::Iter;
pub use crate::iter::IterMut;
pub use crate::raw_entry::RawEntryBuilder;
pub use crate::raw_entry::RawEntryBuilderMut;
pub use crate::raw_entry::RawEntryMut;
pub use crate::raw_entry::RawOccupiedEntryMut;
pub use crate::raw_entry::RawVacantEntryMut;

use crate::iter::deref_pairs;
use crate::model::enumerates;
use crate::model::lemma_enumerates_self;
use crate::model::lemma_seq_to_map_push;
use crate::model::lemma_seq_to_map_index;
use crate::model::obeys_map_model;
use crate::model::seq_to_map;
use crate::model::unique_keys;
use crate::vecmap::VecMap;
use core::hash::BuildHasher;
use core::hash::Hash;
use vstd::prelude::*;
use vstd::std_specs::hash::builds_valid_hashers;
use vstd::std_specs::iter::IteratorSpec;
use vstd::std_specs::hash::obeys_key_model;

verus! {

broadcast use vstd::std_specs::hash::group_hash_axioms;

/// The hash builder used when none is supplied.
pub type DefaultHashBuilder = std::collections::hash_map::RandomState;

/// Maximum number of elements before the representation is swapped from
/// the linear backend to the hash backend.
pub const VEC_LIMIT_UPPER: usize = 32;

/// The container: exactly one backend is active at any observable point.
/// The inner state is public so that specifications can name it; treat it
/// as read-only.
#[verifier::reject_recursive_types(S)]
#[derive(Clone)]
pub struct HashMap<K, V, S = DefaultHashBuilder>(pub HashMapInt<K, V, S>);

/// The tagged union over the two backends.  `Transitional` exists only
/// for the instant, inside one insertion, when the linear backend has
/// been taken out and the hash backend is not yet installed; it is never
/// the state after a public call returns.
#[verifier::reject_recursive_types(S)]
#[derive(Clone)]
pub enum HashMapInt<K, V, S = DefaultHashBuilder> {
    /// The hash backend.
    Hashed(std::collections::HashMap<K, V, S>),
    /// The linear backend.
    Linear(VecMap<K, V, S>),
    /// The migration placeholder; never externally observable.
    Transitional,
}

impl<K, V, S> View for HashMap<K, V, S> {
    type V = Map<K, V>;

    open spec fn view(&self) -> Map<K, V> {
        match self.0 {
            HashMapInt::Hashed(m) => m@,
            HashMapInt::Linear(m) => m@,
            HashMapInt::Transitional => Map::empty(),
        }
    }
}

impl<K: PartialEq, V, S> HashMap<K, V, S> {
    /// A concrete backend is installed, and the linear backend (if active)
    /// is well formed.
    pub open spec fn wf(self) -> bool {
        match self.0 {
            HashMapInt::Hashed(_) => true,
            HashMapInt::Linear(m) => m.wf(),
            HashMapInt::Transitional => false,
        }
    }

    /// Whether the linear backend is active.
    pub open spec fn spec_is_vec(self) -> bool {
        self.0 is Linear
    }

    /// Whether the hash backend is active.
    pub open spec fn spec_is_map(self) -> bool {
        self.0 is Hashed
    }

    /// The number of pairs the linear backend holds (zero when the hash
    /// backend is active); this raw count, not the abstract map, is what
    /// the migration threshold is compared against.
    pub open spec fn spec_vec_len(self) -> nat {
        match self.0 {
            HashMapInt::Linear(m) => m.v@.len(),
            _ => 0,
        }
    }
}

impl<K: Eq + Hash, V> HashMap<K, V, DefaultHashBuilder> {
    /// Creates an empty container; the linear backend is active.
    pub fn new() -> (m: Self)
        ensures
            m.wf(),
            m@ =~= Map::<K, V>::empty(),
            m.spec_is_vec(),
            m.spec_vec_len() == 0,
    {
        HashMap(HashMapInt::Linear(VecMap::with_hasher(crate::hashed::default_random_state())))
    }

    /// Creates an empty container able to hold `capacity` elements without
    /// reallocating; picks the hash backend up front when `capacity`
    /// exceeds the threshold, so that no migration follows.
    pub fn with_capacity(capacity: usize) -> (m: Self)
        ensures
            m.wf(),
            m@ =~= Map::<K, V>::empty(),
            m.spec_is_vec() <==> capacity <= VEC_LIMIT_UPPER,
            m.spec_vec_len() == 0,
    {
        if capacity > VEC_LIMIT_UPPER {
            HashMap(
                HashMapInt::Hashed(
                    crate::hashed::table_with_capacity_and_hasher(
                        capacity,
                        crate::hashed::default_random_state(),
                    ),
                ),
            )
        } else {
            HashMap(
                HashMapInt::Linear(
                    VecMap::with_capacity_and_hasher(capacity, crate::hashed::default_random_state()),
                ),
            )
        }
    }

    /// Creates an empty container on the linear backend regardless of the
    /// requested capacity, for bulk building with `insert_nocheck`.
    pub fn vec_with_capacity(capacity: usize) -> (m: Self)
        ensures
            m.wf(),
            m@ =~= Map::<K, V>::empty(),
            m.spec_is_vec(),
            m.spec_vec_len() == 0,
    {
        HashMap(
            HashMapInt::Linear(
                VecMap::with_capacity_and_hasher(capacity, crate::hashed::default_random_state()),
            ),
        )
    }
}

impl<K: Eq + Hash, V, S: BuildHasher> HashMap<K, V, S> {
    /// Creates an empty container that hashes with `hash_builder`; the
    /// hash backend is active from the start.
    pub fn with_hasher(hash_builder: S) -> (m: Self)
        ensures
            m.wf(),
            m@ =~= Map::<K, V>::empty(),
            m.spec_is_map(),
    {
        HashMap(HashMapInt::Hashed(crate::hashed::table_with_hasher(hash_builder)))
    }

    /// Creates an empty container with the given capacity that hashes with
    /// `hash_builder`; the hash backend is active from the start.
    pub fn with_capacity_and_hasher(capacity: usize, hash_builder: S) -> (m: Self)
        ensures
            m.wf(),
            m@ =~= Map::<K, V>::empty(),
            m.spec_is_map(),
    {
        HashMap(
            HashMapInt::Hashed(
                crate::hashed::table_with_capacity_and_hasher(capacity, hash_builder),
            ),
        )
    }

    /// Reference to the active backend's hash builder.
    pub fn hasher(&self) -> (r: &S)
        requires
            self.wf(),
    {
        match &self.0 {
            HashMapInt::Hashed(m) => crate::hashed::table_hasher(m),
            HashMapInt::Linear(m) => m.hasher(),
            HashMapInt::Transitional => vstd::pervasive::unreached(),
        }
    }

    /// The number of elements the container can hold without reallocating:
    /// at least as many as it currently holds.
    pub fn capacity(&self) -> (r: usize)
        requires
            self.wf(),
        ensures
            obeys_map_model::<K, S>() ==> self@.len() <= r,
            self.spec_is_vec() ==> self.spec_vec_len() <= r,
    {
        match &self.0 {
            HashMapInt::Hashed(m) => crate::hashed::table_capacity(m),
            HashMapInt::Linear(m) => {
                proof {
                    if obeys_map_model::<K, S>() {
                        crate::model::lemma_seq_to_map_len(m.v@);
                    }
                }
                m.capacity()
            },
            HashMapInt::Transitional => vstd::pervasive::unreached(),
        }
    }

    /// The number of stored elements.
    pub fn len(&self) -> (n: usize)
        requires
            self.wf(),
        ensures
            obeys_map_model::<K, S>() ==> n == self@.len(),
            self.spec_is_vec() ==> n == self.spec_vec_len(),
    {
        match &self.0 {
            HashMapInt::Hashed(m) => m.len(),
            HashMapInt::Linear(m) => m.len(),
            HashMapInt::Transitional => vstd::pervasive::unreached(),
        }
    }

    /// Whether the container holds no elements.
    pub fn is_empty(&self) -> (b: bool)
        requires
            self.wf(),
        ensures
            obeys_map_model::<K, S>() ==> b == self@.is_empty(),
    {
        match &self.0 {
            HashMapInt::Hashed(m) => m.is_empty(),
            HashMapInt::Linear(m) => m.is_empty(),
            HashMapInt::Transitional => vstd::pervasive::unreached(),
        }
    }

    /// Removes every element; the active backend and its allocation are
    /// kept.
    pub fn clear(&mut self)
        requires
            old(self).wf(),
        ensures
            final(self).wf(),
            final(self)@ =~= Map::<K, V>::empty(),
            final(self).spec_is_vec() == old(self).spec_is_vec(),
            final(self).spec_is_map() == old(self).spec_is_map(),
            final(self).spec_vec_len() == 0,
    {
        match &mut self.0 {
            HashMapInt::Hashed(m) => m.clear(),
            HashMapInt::Linear(m) => m.clear(),
            HashMapInt::Transitional => vstd::pervasive::unreached(),
        }
    }

    /// Whether the hash backend is active.
    pub fn is_map(&self) -> (b: bool)
        requires
            self.wf(),
        ensures
            b == self.spec_is_map(),
    {
        match &self.0 {
            HashMapInt::Hashed(_) => true,
            HashMapInt::Linear(_) => false,
            HashMapInt::Transitional => vstd::pervasive::unreached(),
        }
    }

    /// Whether the linear backend is active.
    pub fn is_vec(&self) -> (b: bool)
        requires
            self.wf(),
        ensures
            b == self.spec_is_vec(),
    {
        match &self.0 {
            HashMapInt::Hashed(_) => false,
            HashMapInt::Linear(_) => true,
            HashMapInt::Transitional => vstd::pervasive::unreached(),
        }
    }

    /// Reference to the value stored under `k`, if any.
    pub fn get(&self, k: &K) -> (r: Option<&V>)
        requires
            self.wf(),
        ensures
            obeys_map_model::<K, S>() ==> match r {
                Some(v) => self@.contains_key(*k) && *v == self@[*k],
                None => !self@.contains_key(*k),
            },
    {
        match &self.0 {
            HashMapInt::Hashed(m) => m.get(k),
            HashMapInt::Linear(m) => m.get(k),
            HashMapInt::Transitional => vstd::pervasive::unreached(),
        }
    }

    /// Whether a value is stored under `k`.
    pub fn contains_key(&self, k: &K) -> (b: bool)
        requires
            self.wf(),
        ensures
            obeys_map_model::<K, S>() ==> b == self@.contains_key(*k),
    {
        match &self.0 {
            HashMapInt::Hashed(m) => m.contains_key(k),
            HashMapInt::Linear(m) => m.contains_key(k),
            HashMapInt::Transitional => vstd::pervasive::unreached(),
        }
    }

    /// Mutable reference to the value stored under `k`, if any.
    pub fn get_mut(&mut self, k: &K) -> (r: Option<&mut V>)
        requires
            old(self).wf(),
        ensures
            final(self).wf(),
            final(self).spec_is_vec() == old(self).spec_is_vec(),
            final(self).spec_is_map() == old(self).spec_is_map(),
            final(self).spec_vec_len() == old(self).spec_vec_len(),
            obeys_map_model::<K, S>() ==> match r {
                Some(v) => {
                    &&& old(self)@.contains_key(*k)
                    &&& *v == old(self)@[*k]
                    &&& final(self)@ == old(self)@.insert(*k, *final(v))
                },
                None => {
                    &&& !old(self)@.contains_key(*k)
                    &&& final(self)@ == old(self)@
                },
            },
    {
        match &mut self.0 {
            HashMapInt::Hashed(m) => crate::hashed::table_get_mut(m, k),
            HashMapInt::Linear(m) => m.get_mut(k),
            HashMapInt::Transitional => vstd::pervasive::unreached(),
        }
    }

    /// Removes the value stored under `k`, if any, and returns it.  The
    /// backend never changes on removal.
    pub fn remove(&mut self, k: &K) -> (r: Option<V>)
        requires
            old(self).wf(),
        ensures
            final(self).wf(),
            final(self).spec_is_vec() == old(self).spec_is_vec(),
            final(self).spec_is_map() == old(self).spec_is_map(),
            final(self).spec_vec_len() <= old(self).spec_vec_len(),
            obeys_map_model::<K, S>() ==> match r {
                Some(v) => {
                    &&& old(self)@.contains_key(*k)
                    &&& v == old(self)@[*k]
                    &&& final(self)@ == old(self)@.remove(*k)
                },
                None => {
                    &&& !old(self)@.contains_key(*k)
                    &&& final(self)@ == old(self)@
                },
            },
    {
        match &mut self.0 {
            HashMapInt::Hashed(m) => m.remove(k),
            HashMapInt::Linear(m) => m.remove(k),
            HashMapInt::Transitional => vstd::pervasive::unreached(),
        }
    }

    /// Reserves room for at least `additional` more elements; the backend
    /// and the contents are unchanged.
    pub fn reserve(&mut self, additional: usize)
        requires
            old(self).wf(),
        ensures
            final(self).wf(),
            final(self)@ == old(self)@,
            final(self).spec_is_vec() == old(self).spec_is_vec(),
            final(self).spec_is_map() == old(self).spec_is_map(),
            final(self).spec_vec_len() == old(self).spec_vec_len(),
    {
        match &mut self.0 {
            HashMapInt::Hashed(m) => m.reserve(additional),
            HashMapInt::Linear(m) => m.reserve(additional),
            HashMapInt::Transitional => vstd::pervasive::unreached(),
        }
    }

    /// Shrinks the allocation towards the number of stored elements; the
    /// backend and the contents are unchanged.
    pub fn shrink_to_fit(&mut self)
        requires
            old(self).wf(),
        ensures
            final(self).wf(),
            final(self)@ == old(self)@,
            final(self).spec_is_vec() == old(self).spec_is_vec(),
            final(self).spec_is_map() == old(self).spec_is_map(),
            final(self).spec_vec_len() == old(self).spec_vec_len(),
    {
        match &mut self.0 {
            HashMapInt::Hashed(m) => crate::hashed::table_shrink_to_fit(m),
            HashMapInt::Linear(m) => m.shrink_to_fit(),
            HashMapInt::Transitional => vstd::pervasive::unreached(),
        }
    }

    /// Inserts `v` under `k` and returns the previous value, if any.  On
    /// the linear backend, when the pair count has reached the threshold,
    /// the container first migrates — once and irreversibly — to the hash
    /// backend, and the insertion lands there.
    pub fn insert(&mut self, k: K, v: V) -> (r: Option<V>) where S: Default
        requires
            old(self).wf(),
        ensures
            final(self).wf(),
            old(self).spec_is_map() ==> final(self).spec_is_map(),
            old(self).spec_is_vec() && old(self).spec_vec_len() < VEC_LIMIT_UPPER
                ==> final(self).spec_is_vec() && final(self).spec_vec_len() <= old(
                self,
            ).spec_vec_len() + 1,
            old(self).spec_is_vec() && old(self).spec_vec_len() >= VEC_LIMIT_UPPER
                ==> final(self).spec_is_map(),
            obeys_map_model::<K, S>() ==> {
                &&& final(self)@ == old(self)@.insert(k, v)
                &&& (match r {
                    Some(pv) => old(self)@.contains_key(k) && pv == old(self)@[k],
                    None => !old(self)@.contains_key(k),
                })
                &&& (old(self).spec_is_vec() && old(self).spec_vec_len() < VEC_LIMIT_UPPER
                    ==> final(self).spec_vec_len() == old(self).spec_vec_len() + (if old(
                    self,
                )@.contains_key(k) {
                    0int
                } else {
                    1int
                }))
            },
    {
        let migrate: bool = match &mut self.0 {
            HashMapInt::Hashed(m) => {
                return m.insert(k, v);
            },
            HashMapInt::Linear(m) => m.len() >= VEC_LIMIT_UPPER,
            HashMapInt::Transitional => vstd::pervasive::unreached(),
        };
        if migrate {
            self.migrate_then_insert(k, v)
        } else {
            match &mut self.0 {
                HashMapInt::Linear(m) => m.insert(k, v),
                _ => vstd::pervasive::unreached(),
            }
        }
    }

    /// The one-time migration: drains the linear backend into a fresh hash
    /// table through the transitional state, installs the table, and then
    /// performs the pending insertion against it.
    fn migrate_then_insert(&mut self, k: K, v: V) -> (r: Option<V>) where S: Default
        requires
            old(self).wf(),
            old(self).spec_is_vec(),
        ensures
            final(self).wf(),
            final(self).spec_is_map(),
            obeys_map_model::<K, S>() ==> {
                &&& final(self)@ == old(self)@.insert(k, v)
                &&& (match r {
                    Some(pv) => old(self)@.contains_key(k) && pv == old(self)@[k],
                    None => !old(self)@.contains_key(k),
                })
            },
    {
        let mut state: HashMapInt<K, V, S> = HashMapInt::Transitional;
        core::mem::swap(&mut state, &mut self.0);
        match state {
            HashMapInt::Linear(vm) => {
                let ghost orig = vm.v@;
                let mut vm = vm;
                let mut table: std::collections::HashMap<K, V, S> =
                    crate::hashed::table_with_hasher(S::default());
                while vm.v.len() > 0
                    invariant
                        orig.skip((orig.len() - vm.v@.len()) as int) =~= vm.v@,
                        vm.v@.len() <= orig.len(),
                        obeys_map_model::<K, S>() ==> {
                            &&& unique_keys(orig)
                            &&& table@ =~= seq_to_map(orig.take((orig.len() - vm.v@.len()) as int))
                        },
                    decreases vm.v@.len(),
                {
                    let ghost j = (orig.len() - vm.v@.len()) as int;
                    let (kk, vv) = vm.v.remove(0);
                    proof {
                        assert((kk, vv) == orig[j]);
                        assert(vm.v@ =~= orig.skip(j + 1));
                        if obeys_map_model::<K, S>() {
                            lemma_seq_to_map_push(orig.take(j), kk, vv);
                            assert(orig.take(j + 1) =~= orig.take(j).push((kk, vv)));
                        }
                    }
                    table.insert(kk, vv);
                    proof {
                        if obeys_map_model::<K, S>() {
                            assert(table@ =~= seq_to_map(orig.take(j + 1)));
                        }
                    }
                }
                proof {
                    if obeys_map_model::<K, S>() {
                        assert(orig.take(orig.len() as int) =~= orig);
                        assert(table@ == seq_to_map(orig));
                        assert(seq_to_map(orig) == old(self)@);
                    }
                }
                let r = table.insert(k, v);
                self.0 = HashMapInt::Hashed(table);
                r
            },
            HashMapInt::Hashed(_) => vstd::pervasive::unreached(),
            HashMapInt::Transitional => vstd::pervasive::unreached(),
        }
    }

    /// Reference to the value stored under `key`; the caller guarantees
    /// that the key is present.
    pub fn index(&self, key: &K) -> (r: &V)
        requires
            self.wf(),
            obeys_map_model::<K, S>(),
            self@.contains_key(*key),
        ensures
            *r == self@[*key],
    {
        match self.get(key) {
            Some(v) => v,
            None => vstd::pervasive::unreached(),
        }
    }

    /// Keeps exactly the pairs on which `f` returns true, and removes the
    /// rest; `f` may rewrite each kept value in place.  The backend never
    /// changes.
    pub fn retain<F: FnMut(&K, &mut V) -> bool>(&mut self, f: F)
        requires
            old(self).wf(),
            forall|kr: &K, m: &mut V|
                (obeys_map_model::<K, S>() ==> old(self)@.contains_key(*kr) && *m == old(
                    self,
                )@[*kr]) ==> call_requires(f, (kr, m)),
        ensures
            final(self).wf(),
            final(self).spec_is_vec() == old(self).spec_is_vec(),
            final(self).spec_is_map() == old(self).spec_is_map(),
            final(self).spec_vec_len() <= old(self).spec_vec_len(),
            obeys_map_model::<K, S>() ==> {
                &&& forall|k: K| #[trigger]
                    final(self)@.contains_key(k) ==> old(self)@.contains_key(k)
                &&& forall|k: K| #[trigger]
                    old(self)@.contains_key(k) ==> {
                        ||| {
                            &&& final(self)@.contains_key(k)
                            &&& exists|kr: &K, m: &mut V|
                                {
                                    &&& *kr == k
                                    &&& *m == old(self)@[k]
                                    &&& call_ensures(f, (kr, m), true)
                                    &&& final(self)@[k] == *final(m)
                                }
                        }
                        ||| {
                            &&& !final(self)@.contains_key(k)
                            &&& exists|kr: &K, m: &mut V|
                                {
                                    &&& *kr == k
                                    &&& *m == old(self)@[k]
                                    &&& call_ensures(f, (kr, m), false)
                                }
                        }
                    }
            },
    {
        match &mut self.0 {
            HashMapInt::Hashed(m) => crate::hashed::table_retain(m, f),
            HashMapInt::Linear(m) => {
                proof {
                    if obeys_map_model::<K, S>() {
                        assert forall|i: int, kr: &K, mv: &mut V|
                            0 <= i < m.v@.len() && *kr == m.v@[i].0 && *mv
                                == m.v@[i].1 implies call_requires(f, (kr, mv)) by {
                            crate::model::lemma_seq_to_map_index(m.v@, i);
                        }
                    }
                }
                m.retain(f)
            },
            HashMapInt::Transitional => vstd::pervasive::unreached(),
        }
    }

    /// Inserts without scanning for a duplicate on the linear backend; the
    /// caller guarantees the key is not present.  On the hash backend this
    /// is an ordinary insertion.
    pub fn insert_nocheck(&mut self, k: K, v: V)
        requires
            old(self).wf(),
            old(self).spec_is_vec() ==> !old(self)@.contains_key(k),
        ensures
            final(self).wf(),
            final(self).spec_is_vec() == old(self).spec_is_vec(),
            final(self).spec_is_map() == old(self).spec_is_map(),
            old(self).spec_is_vec() ==> final(self).spec_vec_len() == old(self).spec_vec_len()
                + 1,
            obeys_map_model::<K, S>() ==> final(self)@ == old(self)@.insert(k, v),
    {
        match &mut self.0 {
            HashMapInt::Hashed(m) => {
                m.insert(k, v);
            },
            HashMapInt::Linear(m) => m.insert_nocheck(k, v),
            HashMapInt::Transitional => vstd::pervasive::unreached(),
        }
    }

    /// The entry for `key`: an occupied or vacant handle for in-place
    /// manipulation, borrowing the active backend exclusively.
    pub fn entry<'a>(&'a mut self, key: K) -> (e: Entry<'a, K, V, S>)
        requires
            old(self).wf(),
        ensures
            e.ok(),
            e.key_spec() == key,
            obeys_map_model::<K, S>() ==> (e is Occupied <==> old(self)@.contains_key(key)),
            e matches Entry::Occupied(o) ==> (o.0 matches crate::entry::OccupiedEntryInt::Linear {
                map,
                key: k2,
                idx,
            } ==> {
                &&& old(self).0 is Linear
                &&& *map == old(self).0->Linear_0
                &&& *final(self) == HashMap(HashMapInt::Linear(*final(map)))
            }),
            e matches Entry::Occupied(o) ==> (o.0 matches crate::entry::OccupiedEntryInt::Hashed {
                table,
                key: k2,
            } ==> {
                &&& old(self).0 is Hashed
                &&& *table == old(self).0->Hashed_0
                &&& *final(self) == HashMap(HashMapInt::Hashed(*final(table)))
            }),
            e matches Entry::Vacant(v) ==> (v.0 matches crate::entry::VacantEntryInt::Linear {
                map,
                key: k2,
            } ==> {
                &&& old(self).0 is Linear
                &&& *map == old(self).0->Linear_0
                &&& *final(self) == HashMap(HashMapInt::Linear(*final(map)))
            }),
            e matches Entry::Vacant(v) ==> (v.0 matches crate::entry::VacantEntryInt::Hashed {
                table,
                key: k2,
            } ==> {
                &&& old(self).0 is Hashed
                &&& *table == old(self).0->Hashed_0
                &&& *final(self) == HashMap(HashMapInt::Hashed(*final(table)))
            }),
            old(self).0 is Linear ==> (e matches Entry::Occupied(o) ==> o.0 is Linear) && (
            e matches Entry::Vacant(v) ==> v.0 is Linear),
            old(self).0 is Hashed ==> (e matches Entry::Occupied(o) ==> o.0 is Hashed) && (
            e matches Entry::Vacant(v) ==> v.0 is Hashed),
    {
        match &mut self.0 {
            HashMapInt::Hashed(m) => {
                if m.contains_key(&key) {
                    Entry::Occupied(
                        crate::entry::OccupiedEntry(
                            crate::entry::OccupiedEntryInt::Hashed { table: m, key },
                        ),
                    )
                } else {
                    Entry::Vacant(
                        crate::entry::VacantEntry(
                            crate::entry::VacantEntryInt::Hashed { table: m, key },
                        ),
                    )
                }
            },
            HashMapInt::Linear(m) => {
                match m.find(&key) {
                    Some(i) => {
                        proof {
                            if obeys_map_model::<K, S>() {
                                lemma_seq_to_map_index(m.v@, i as int);
                            }
                        }
                        Entry::Occupied(
                            crate::entry::OccupiedEntry(
                                crate::entry::OccupiedEntryInt::Linear { map: m, key, idx: i },
                            ),
                        )
                    },
                    None => Entry::Vacant(
                        crate::entry::VacantEntry(
                            crate::entry::VacantEntryInt::Linear { map: m, key },
                        ),
                    ),
                }
            },
            HashMapInt::Transitional => vstd::pervasive::unreached(),
        }
    }

    /// A raw-entry builder: searches driven by a caller supplied hash or
    /// equality predicate, with the owned key deferred to insertion.
    pub fn raw_entry_mut(&mut self) -> (b: crate::raw_entry::RawEntryBuilderMut<'_, K, V, S>)
        requires
            old(self).wf(),
        ensures
            *b.map == *old(self),
            *final(self) == *final(b.map),
    {
        crate::raw_entry::RawEntryBuilderMut { map: self }
    }

    /// A raw-lookup builder over a shared borrow of the container.
    pub fn raw_entry(&self) -> (b: crate::raw_entry::RawEntryBuilder<'_, K, V, S>)
        requires
            self.wf(),
        ensures
            b.map == self,
    {
        crate::raw_entry::RawEntryBuilder { map: self }
    }

    /// An iterator over all pairs, in the active backend's natural order.
    pub fn iter(&self) -> (it: Iter<'_, K, V>)
        requires
            self.wf(),
        ensures
            it.wf(),
            it.pos == 0,
            it.remaining() == it.elems(),
            obeys_map_model::<K, S>() ==> enumerates(it.elems(), self@) && it.elems().len()
                == self@.len(),
            self.0 matches HashMapInt::Linear(lm) ==> it.elems() == lm.v@,
    {
        match &self.0 {
            HashMapInt::Hashed(m) => {
                let pairs = collect_table_pairs(m);
                Iter { pairs, pos: 0 }
            },
            HashMapInt::Linear(m) => {
                let n = m.v.len();
                let mut pairs: Vec<(&K, &V)> = Vec::new();
                let mut i: usize = 0;
                while i < n
                    invariant
                        n == m.v@.len(),
                        i <= n,
                        pairs@.len() == i,
                        forall|j: int|
                            0 <= j < i ==> #[trigger] pairs@[j] == (&m.v@[j].0, &m.v@[j].1),
                    decreases n - i,
                {
                    let p = &m.v[i];
                    pairs.push((&p.0, &p.1));
                    i += 1;
                }
                proof {
                    assert(deref_pairs(pairs@) =~= m.v@);
                    if obeys_map_model::<K, S>() {
                        lemma_enumerates_self(m.v@);
                    }
                }
                Iter { pairs, pos: 0 }
            },
            HashMapInt::Transitional => vstd::pervasive::unreached(),
        }
    }

    /// An iterator over all keys, in the active backend's natural order.
    pub fn keys(&self) -> (it: Keys<'_, K, V>)
        requires
            self.wf(),
        ensures
            it.inner.wf(),
            it.inner.pos == 0,
            obeys_map_model::<K, S>() ==> enumerates(it.inner.elems(), self@)
                && it.inner.elems().len() == self@.len(),
            self.0 matches HashMapInt::Linear(lm) ==> it.inner.elems() == lm.v@,
    {
        Keys { inner: self.iter() }
    }

    /// An iterator over all values, in the active backend's natural order.
    pub fn values(&self) -> (it: Values<'_, K, V>)
        requires
            self.wf(),
        ensures
            it.inner.wf(),
            it.inner.pos == 0,
            obeys_map_model::<K, S>() ==> enumerates(it.inner.elems(), self@)
                && it.inner.elems().len() == self@.len(),
            self.0 matches HashMapInt::Linear(lm) ==> it.inner.elems() == lm.v@,
    {
        Values { inner: self.iter() }
    }

    /// An iterator over all pairs with mutable access to the values, in
    /// the active backend's natural order.  The borrowed slots are split
    /// out up front; every value ends up as whatever the caller leaves in
    /// its slot.
    #[verifier::rlimit(50)]
    pub fn iter_mut(&mut self) -> (it: IterMut<'_, K, V>)
        requires
            old(self).wf(),
        ensures
            final(self).wf(),
            final(self).spec_is_vec() == old(self).spec_is_vec(),
            final(self).spec_is_map() == old(self).spec_is_map(),
            final(self).spec_vec_len() == old(self).spec_vec_len(),
            obeys_map_model::<K, S>() ==> {
                &&& it.pairs@.len() == old(self)@.len()
                &&& (forall|i: int, j: int|
                    0 <= i < j < it.pairs@.len() ==> *it.pairs@[i].0 !== *it.pairs@[j].0)
                &&& forall|i: int|
                    0 <= i < it.pairs@.len() ==> old(self)@.contains_key(#[trigger] *it.pairs@[i].0)
                        && *it.pairs@[i].1 == old(self)@[*it.pairs@[i].0]
                &&& forall|k: K| #[trigger] old(self)@.contains_key(k) ==> exists|i: int|
                    0 <= i < it.pairs@.len() && *it.pairs@[i].0 == k
                &&& (forall|k: K| #[trigger]
                    final(self)@.contains_key(k) == old(self)@.contains_key(k))
                &&& forall|i: int|
                    0 <= i < it.pairs@.len() ==> final(self)@[#[trigger] *it.pairs@[i].0]
                        == *final(it.pairs@[i].1)
            },
    {
        match &mut self.0 {
            HashMapInt::Hashed(m) => {
                let pairs = crate::hashed::table_iter_mut_pairs(m);
                IterMut { pairs }
            },
            HashMapInt::Linear(m) => linear_iter_mut(m),
            HashMapInt::Transitional => vstd::pervasive::unreached(),
        }
    }

    /// An iterator over all values with mutable access, in the active
    /// backend's natural order.
    pub fn values_mut(&mut self) -> (it: ValuesMut<'_, K, V>)
        requires
            old(self).wf(),
        ensures
            final(self).wf(),
            final(self).spec_is_vec() == old(self).spec_is_vec(),
            final(self).spec_is_map() == old(self).spec_is_map(),
            final(self).spec_vec_len() == old(self).spec_vec_len(),
            obeys_map_model::<K, S>() ==> {
                &&& it.inner.pairs@.len() == old(self)@.len()
                &&& forall|i: int|
                    0 <= i < it.inner.pairs@.len() ==> old(self)@.contains_key(
                        #[trigger] *it.inner.pairs@[i].0,
                    ) && *it.inner.pairs@[i].1 == old(self)@[*it.inner.pairs@[i].0]
                &&& (forall|k: K| #[trigger]
                    final(self)@.contains_key(k) == old(self)@.contains_key(k))
                &&& forall|i: int|
                    0 <= i < it.inner.pairs@.len() ==> final(self)@[#[trigger] *it.inner.pairs@[i].0]
                        == *final(it.inner.pairs@[i].1)
            },
    {
        ValuesMut { inner: self.iter_mut() }
    }

    /// Empties the container and hands every pair to the returned iterator.
    /// The container is already empty once `drain` returns, however little
    /// of the iterator is consumed; the active backend is kept.
    pub fn drain(&mut self) -> (d: Drain<K, V>)
        requires
            old(self).wf(),
        ensures
            final(self).wf(),
            final(self)@ =~= Map::<K, V>::empty(),
            final(self).spec_is_vec() == old(self).spec_is_vec(),
            final(self).spec_is_map() == old(self).spec_is_map(),
            final(self).spec_vec_len() == 0,
            obeys_map_model::<K, S>() ==> enumerates(d.remaining(), old(self)@)
                && d.remaining().len() == old(self)@.len(),
            old(self).0 matches HashMapInt::Linear(lm) ==> d.remaining() == lm.v@,
    {
        match &mut self.0 {
            HashMapInt::Hashed(m) => {
                let pairs = crate::hashed::table_drain_to_vec(m);
                proof {
                    if obeys_map_model::<K, S>() {
                        lemma_enumerates_self(pairs@);
                    }
                }
                Drain { pairs }
            },
            HashMapInt::Linear(m) => {
                let mut pairs: Vec<(K, V)> = Vec::new();
                core::mem::swap(&mut pairs, &mut m.v);
                proof {
                    if obeys_map_model::<K, S>() {
                        lemma_enumerates_self(pairs@);
                    }
                }
                Drain { pairs }
            },
            HashMapInt::Transitional => vstd::pervasive::unreached(),
        }
    }
}

impl<K: Eq + Hash, V: PartialEq, S: BuildHasher> HashMap<K, V, S> {
    /// Whether the two containers hold the same keys with equal values,
    /// whichever backend and hasher each one uses.
    pub fn content_eq<S1: BuildHasher>(&self, other: &HashMap<K, V, S1>) -> (r: bool)
        requires
            self.wf(),
            other.wf(),
        ensures
            obeys_map_model::<K, S>() && obeys_map_model::<K, S1>() && crate::model::obeys_eq_model::<
                V,
            >() ==> r == (self@ =~= other@),
    {
        if self.len() != other.len() {
            proof {
                if obeys_map_model::<K, S>() && obeys_map_model::<K, S1>() {
                    assert(self@.len() != other@.len());
                    if self@ =~= other@ {
                        assert(self@.len() == other@.len());
                    }
                }
            }
            return false;
        }
        let it = self.iter();
        let ghost es = it.elems();
        let n = it.pairs.len();
        let mut i: usize = 0;
        while i < n
            invariant
                self.wf(),
                other.wf(),
                n == it.pairs@.len(),
                i <= n,
                es == it.elems(),
                obeys_map_model::<K, S>() && obeys_map_model::<K, S1>()
                    && crate::model::obeys_eq_model::<V>() ==> {
                    &&& enumerates(es, self@)
                    &&& es.len() == self@.len()
                    &&& self@.len() == other@.len()
                    &&& forall|j: int|
                        0 <= j < i ==> other@.contains_key(#[trigger] es[j].0) && other@[es[j].0]
                            == es[j].1
                },
            decreases n - i,
        {
            let p = it.pairs[i];
            match other.get(p.0) {
                Some(w) => {
                    if !(*p.1 == *w) {
                        proof {
                            if obeys_map_model::<K, S>() && obeys_map_model::<K, S1>()
                                && crate::model::obeys_eq_model::<V>() {
                                assert(self@.contains_key(es[i as int].0));
                                assert(self@[es[i as int].0] != other@[es[i as int].0]);
                            }
                        }
                        return false;
                    }
                },
                None => {
                    proof {
                        if obeys_map_model::<K, S>() && obeys_map_model::<K, S1>()
                            && crate::model::obeys_eq_model::<V>() {
                            assert(self@.contains_key(es[i as int].0));
                            assert(!other@.contains_key(es[i as int].0));
                        }
                    }
                    return false;
                },
            }
            i += 1;
        }
        let it2 = other.iter();
        let ghost es2 = it2.elems();
        let n2 = it2.pairs.len();
        let mut i2: usize = 0;
        while i2 < n2
            invariant
                self.wf(),
                other.wf(),
                n2 == it2.pairs@.len(),
                i2 <= n2,
                es2 == it2.elems(),
                obeys_map_model::<K, S>() && obeys_map_model::<K, S1>()
                    && crate::model::obeys_eq_model::<V>() ==> {
                    &&& enumerates(es, self@)
                    &&& enumerates(es2, other@)
                    &&& forall|j: int|
                        0 <= j < es.len() ==> other@.contains_key(#[trigger] es[j].0) && other@[
                            es[j].0
                        ] == es[j].1
                    &&& forall|j: int|
                        0 <= j < i2 ==> self@.contains_key(#[trigger] es2[j].0) && self@[es2[j].0]
                            == es2[j].1
                },
            decreases n2 - i2,
        {
            let p = it2.pairs[i2];
            match self.get(p.0) {
                Some(w) => {
                    if !(*p.1 == *w) {
                        proof {
                            if obeys_map_model::<K, S>() && obeys_map_model::<K, S1>()
                                && crate::model::obeys_eq_model::<V>() {
                                assert(other@.contains_key(es2[i2 as int].0));
                                assert(other@[es2[i2 as int].0] != self@[es2[i2 as int].0]);
                            }
                        }
                        return false;
                    }
                },
                None => {
                    proof {
                        if obeys_map_model::<K, S>() && obeys_map_model::<K, S1>()
                            && crate::model::obeys_eq_model::<V>() {
                            assert(other@.contains_key(es2[i2 as int].0));
                            assert(!self@.contains_key(es2[i2 as int].0));
                        }
                    }
                    return false;
                },
            }
            i2 += 1;
        }
        proof {
            if obeys_map_model::<K, S>() && obeys_map_model::<K, S1>()
                && crate::model::obeys_eq_model::<V>() {
                assert forall|k: K| #[trigger] self@.contains_key(k) implies other@.contains_key(k)
                    && other@[k] == self@[k] by {
                    let j = choose|j: int| 0 <= j < es.len() && es[j].0 == k;
                }
                assert forall|k: K| #[trigger] other@.contains_key(k) implies self@.contains_key(k)
                    && self@[k] == other@[k] by {
                    let j = choose|j: int| 0 <= j < es2.len() && es2[j].0 == k;
                }
                assert(self@ =~= other@);
            }
        }
        true
    }
}

/// Containers compare equal when they hold the same keys with equal
/// values, whichever backend and hasher each uses.  The trait gives `==`
/// no standing spec meaning here (`obeys_eq_spec` below is false, since
/// the public fields admit states no type-level claim could survive),
/// so the method carries its contract directly, conditioned on the
/// arguments being well formed; `content_eq` states the same property
/// behind an explicit precondition.
impl<K: Eq + Hash, V: PartialEq, S: BuildHasher, S1: BuildHasher> PartialEq<
    HashMap<K, V, S1>,
> for HashMap<K, V, S> {
    #[verifier::rlimit(50)]
    fn eq(&self, other: &HashMap<K, V, S1>) -> (r: bool)
        ensures
            self.wf() && other.wf() && obeys_map_model::<K, S>() && obeys_map_model::<K, S1>()
                && crate::model::obeys_eq_model::<V>() ==> r == (self@ =~= other@),
    {
        let pa = loose_pairs(self);
        let pb = loose_pairs(other);
        let ghost ok = self.wf() && other.wf() && obeys_map_model::<K, S>() && obeys_map_model::<
            K,
            S1,
        >() && crate::model::obeys_eq_model::<V>();
        let ghost ea = deref_pairs(pa@);
        let ghost eb = deref_pairs(pb@);
        let na = pa.len();
        let mut i: usize = 0;
        while i < na
            invariant
                na == pa@.len(),
                i <= na,
                ea == deref_pairs(pa@),
                eb == deref_pairs(pb@),
                ok == (self.wf() && other.wf() && obeys_map_model::<K, S>() && obeys_map_model::<
                    K,
                    S1,
                >() && crate::model::obeys_eq_model::<V>()),
                ok ==> enumerates(ea, self@) && enumerates(eb, other@),
                ok ==> forall|t: int|
                    0 <= t < i ==> other@.contains_key(#[trigger] ea[t].0) && other@[ea[t].0]
                        == ea[t].1,
            decreases na - i,
        {
            let p = pa[i];
            match pair_find(&pb, p.0, p.1) {
                Some(j) => {
                    proof {
                        if ok {
                            assert(ea[i as int] == (*p.0, *p.1));
                            assert(eb[j as int] == (*pb@[j as int].0, *pb@[j as int].1));
                            assert(other@.contains_key(eb[j as int].0) && other@[eb[j as int].0]
                                == eb[j as int].1);
                            assert(other@.contains_key(ea[i as int].0) && other@[ea[i as int].0]
                                == ea[i as int].1);
                        }
                    }
                },
                None => {
                    proof {
                        if ok {
                            assert(ea[i as int] == (*p.0, *p.1));
                            assert(self@.contains_key(ea[i as int].0) && self@[ea[i as int].0]
                                == ea[i as int].1);
                            assert(!(other@.contains_key(ea[i as int].0) && other@[ea[
                                i as int
                            ].0] == ea[i as int].1)) by {
                                if other@.contains_key(ea[i as int].0) && other@[ea[i as int].0]
                                    == ea[i as int].1 {
                                    let j = choose|j: int|
                                        0 <= j < eb.len() && eb[j].0 == ea[i as int].0;
                                    assert(eb[j] == (*pb@[j].0, *pb@[j].1));
                                    assert(eb[j].1 == other@[eb[j].0]);
                                    assert(0 <= j < pb@.len() && *pb@[j].0 == *p.0 && *pb@[j].1
                                        == *p.1);
                                }
                            }
                            assert(!(self@ =~= other@));
                        }
                    }
                    return false;
                },
            }
            i += 1;
        }
        let nb = pb.len();
        let mut i2: usize = 0;
        while i2 < nb
            invariant
                nb == pb@.len(),
                i2 <= nb,
                ea == deref_pairs(pa@),
                eb == deref_pairs(pb@),
                ok == (self.wf() && other.wf() && obeys_map_model::<K, S>() && obeys_map_model::<
                    K,
                    S1,
                >() && crate::model::obeys_eq_model::<V>()),
                ok ==> enumerates(ea, self@) && enumerates(eb, other@),
                ok ==> forall|t: int|
                    0 <= t < ea.len() ==> other@.contains_key(#[trigger] ea[t].0) && other@[
                        ea[t].0
                    ] == ea[t].1,
                ok ==> forall|t: int|
                    0 <= t < i2 ==> self@.contains_key(#[trigger] eb[t].0) && self@[eb[t].0]
                        == eb[t].1,
            decreases nb - i2,
        {
            let p = pb[i2];
            match pair_find(&pa, p.0, p.1) {
                Some(j) => {
                    proof {
                        if ok {
                            assert(eb[i2 as int] == (*p.0, *p.1));
                            assert(ea[j as int] == (*pa@[j as int].0, *pa@[j as int].1));
                            assert(self@.contains_key(ea[j as int].0) && self@[ea[j as int].0]
                                == ea[j as int].1);
                            assert(self@.contains_key(eb[i2 as int].0) && self@[eb[i2 as int].0]
                                == eb[i2 as int].1);
                        }
                    }
                },
                None => {
                    proof {
                        if ok {
                            assert(eb[i2 as int] == (*p.0, *p.1));
                            assert(other@.contains_key(eb[i2 as int].0) && other@[eb[i2 as int].0]
                                == eb[i2 as int].1);
                            assert(!(self@.contains_key(eb[i2 as int].0) && self@[eb[
                                i2 as int
                            ].0] == eb[i2 as int].1)) by {
                                if self@.contains_key(eb[i2 as int].0) && self@[eb[i2 as int].0]
                                    == eb[i2 as int].1 {
                                    let j = choose|j: int|
                                        0 <= j < ea.len() && ea[j].0 == eb[i2 as int].0;
                                    assert(ea[j] == (*pa@[j].0, *pa@[j].1));
                                    assert(ea[j].1 == self@[ea[j].0]);
                                    assert(0 <= j < pa@.len() && *pa@[j].0 == *p.0 && *pa@[j].1
                                        == *p.1);
                                }
                            }
                            assert(!(self@ =~= other@));
                        }
                    }
                    return false;
                },
            }
            i2 += 1;
        }
        proof {
            if ok {
                assert forall|k: K| #[trigger] self@.contains_key(k) implies other@.contains_key(k)
                    && other@[k] == self@[k] by {
                    let t = choose|t: int| 0 <= t < ea.len() && ea[t].0 == k;
                }
                assert forall|k: K| #[trigger] other@.contains_key(k) implies self@.contains_key(k)
                    && self@[k] == other@[k] by {
                    let t = choose|t: int| 0 <= t < eb.len() && eb[t].0 == k;
                }
                assert(self@ =~= other@);
            }
        }
        true
    }
}

/// The borrowed pairs of whichever backend is active; an empty vector for
/// the (never observable) transitional state.  Has no precondition, so
/// that trait methods can use it on arbitrary values; it promises its
/// enumeration only of well-formed containers.
fn loose_pairs<'x, K: Eq + Hash, V, S: BuildHasher>(m: &'x HashMap<K, V, S>) -> (r: Vec<
    (&'x K, &'x V),
>)
    ensures
        m.wf() && obeys_map_model::<K, S>() ==> enumerates(deref_pairs(r@), m@) && deref_pairs(
            r@,
        ).len() == m@.len(),
{
    match &m.0 {
        HashMapInt::Hashed(t) => collect_table_pairs(t),
        HashMapInt::Linear(l) => {
            let n = l.v.len();
            let mut pairs: Vec<(&K, &V)> = Vec::new();
            let mut i: usize = 0;
            while i < n
                invariant
                    n == l.v@.len(),
                    i <= n,
                    pairs@.len() == i,
                    forall|j: int| 0 <= j < i ==> #[trigger] pairs@[j] == (&l.v@[j].0, &l.v@[j].1),
                decreases n - i,
            {
                let p = &l.v[i];
                pairs.push((&p.0, &p.1));
                i += 1;
            }
            proof {
                assert(deref_pairs(pairs@) =~= l.v@);
                if m.wf() && obeys_map_model::<K, S>() {
                    lemma_enumerates_self(l.v@);
                }
            }
            pairs
        },
        HashMapInt::Transitional => Vec::new(),
    }
}

/// The borrowed keys of whichever backend is active: under the model,
/// exactly the keys of the container's contents.
pub(crate) fn collect_keys<'x, K: Eq + Hash, V, S: BuildHasher>(m: &'x HashMap<K, V, S>) -> (r:
    Vec<&'x K>)
    ensures
        m.wf() && obeys_map_model::<K, S>() ==> {
            &&& forall|i: int| 0 <= i < r@.len() ==> m@.contains_key(*#[trigger] r@[i])
            &&& forall|k: K| #[trigger] m@.contains_key(k) ==> exists|i: int|
                0 <= i < r@.len() && *r@[i] == k
        },
{
    let pairs = loose_pairs(m);
    let ghost es = deref_pairs(pairs@);
    let n = pairs.len();
    let mut out: Vec<&K> = Vec::new();
    let mut i: usize = 0;
    while i < n
        invariant
            n == pairs@.len(),
            i <= n,
            out@.len() == i,
            forall|j: int| 0 <= j < i ==> #[trigger] out@[j] == pairs@[j].0,
        decreases n - i,
    {
        out.push(pairs[i].0);
        i += 1;
    }
    proof {
        if m.wf() && obeys_map_model::<K, S>() {
            assert forall|j: int| 0 <= j < out@.len() implies m@.contains_key(
                *#[trigger] out@[j],
            ) by {
                assert(es[j] == (*pairs@[j].0, *pairs@[j].1));
                assert(m@.contains_key(es[j].0));
            }
            assert forall|k: K| #[trigger] m@.contains_key(k) implies exists|i: int|
                0 <= i < out@.len() && *out@[i] == k by {
                let t = choose|t: int| 0 <= t < es.len() && es[t].0 == k;
                assert(es[t] == (*pairs@[t].0, *pairs@[t].1));
                assert(*out@[t] == k);
            }
        }
    }
    out
}

/// The index of a pair of `ys` with the given key and an equal value, if
/// one is there.
fn pair_find<K: PartialEq, V: PartialEq>(ys: &Vec<(&K, &V)>, k: &K, v: &V) -> (r: Option<usize>)
    ensures
        crate::model::obeys_eq_model::<K>() && crate::model::obeys_eq_model::<V>() ==> match r {
            Some(j) => j < ys@.len() && *ys@[j as int].0 == *k && *ys@[j as int].1 == *v,
            None => !exists|j: int| 0 <= j < ys@.len() && *ys@[j].0 == *k && *ys@[j].1 == *v,
        },
{
    let m = ys.len();
    let mut j: usize = 0;
    while j < m
        invariant
            m == ys@.len(),
            j <= m,
            crate::model::obeys_eq_model::<K>() && crate::model::obeys_eq_model::<V>()
                ==> forall|t: int| 0 <= t < j ==> !(*#[trigger] ys@[t].0 == *k && *ys@[t].1 == *v),
        decreases m - j,
    {
        let q = ys[j];
        if *q.0 == *k && *q.1 == *v {
            return Some(j);
        }
        j += 1;
    }
    None
}

impl<K: Eq + Hash, V: PartialEq, S: BuildHasher, S1: BuildHasher> vstd::std_specs::cmp::PartialEqSpecImpl<
    HashMap<K, V, S1>,
> for HashMap<K, V, S> {
    open spec fn obeys_eq_spec() -> bool {
        false
    }

    open spec fn eq_spec(&self, other: &HashMap<K, V, S1>) -> bool {
        self@ == other@
    }
}

/// A fresh container starts empty on the linear backend.
impl<K: Eq + Hash + Default, V: Default> Default for HashMap<K, V, DefaultHashBuilder> {
    fn default() -> (m: Self)
        ensures
            m.wf(),
            m@ =~= Map::<K, V>::empty(),
            m.spec_is_vec(),
            m.spec_vec_len() == 0,
    {
        HashMap::new()
    }
}

/// Splits the linear backend's pairs into mutable slots, listed so that
/// they are yielded in storage order.
#[verifier::rlimit(50)]
fn linear_iter_mut<'x, K: Eq + Hash, V, S: BuildHasher>(m: &'x mut VecMap<K, V, S>) -> (it:
    IterMut<'x, K, V>)
    requires
        old(m).wf(),
    ensures
        final(m).wf(),
        final(m).v@.len() == old(m).v@.len(),
        final(m).hasher == old(m).hasher,
        obeys_map_model::<K, S>() ==> {
            &&& it.pairs@.len() == old(m)@.len()
            &&& (forall|i: int, j: int|
                0 <= i < j < it.pairs@.len() ==> *it.pairs@[i].0 !== *it.pairs@[j].0)
            &&& forall|i: int|
                0 <= i < it.pairs@.len() ==> old(m)@.contains_key(#[trigger] *it.pairs@[i].0)
                    && *it.pairs@[i].1 == old(m)@[*it.pairs@[i].0]
            &&& forall|k: K| #[trigger] old(m)@.contains_key(k) ==> exists|i: int|
                0 <= i < it.pairs@.len() && *it.pairs@[i].0 == k
            &&& (forall|k: K| #[trigger]
                final(m)@.contains_key(k) == old(m)@.contains_key(k))
            &&& forall|i: int|
                0 <= i < it.pairs@.len() ==> final(m)@[#[trigger] *it.pairs@[i].0]
                    == *final(it.pairs@[i].1)
        },
{
    let ghost s0 = old(m).v@;
    let pairs = m.pairs_mut();
    proof {
            if obeys_map_model::<K, S>() {
                let n = s0.len() as int;
                lemma_enumerates_self(s0);
                let sf = Seq::new(
                    s0.len(),
                    |i: int| (s0[i].0, *final(pairs@[s0.len() - 1 - i].1)),
                );
                assert(unique_keys(sf)) by {
                    assert forall|i: int, j: int| 0 <= i < j < sf.len() implies sf[i].0
                        !== sf[j].0 by {
                        assert(sf[i].0 == s0[i].0);
                        assert(sf[j].0 == s0[j].0);
                    }
                }
                lemma_enumerates_self(sf);
                assert forall|k: K| #[trigger]
                    seq_to_map(sf).contains_key(k) == seq_to_map(s0).contains_key(k) by {
                    crate::model::lemma_seq_to_map_contains(sf, k);
                    crate::model::lemma_seq_to_map_contains(s0, k);
                    if seq_to_map(sf).contains_key(k) {
                        let i = choose|i: int| 0 <= i < sf.len() && sf[i].0 == k;
                        assert(s0[i].0 == k);
                    }
                    if seq_to_map(s0).contains_key(k) {
                        let i = choose|i: int| 0 <= i < s0.len() && s0[i].0 == k;
                        assert(sf[i].0 == k);
                    }
                }
                assert forall|i: int|
                    0 <= i < pairs@.len() implies *#[trigger] pairs@[i].0 == s0[n - 1
                    - i].0 && *pairs@[i].1 == s0[n - 1 - i].1 by {}
                assert forall|i: int| 0 <= i < pairs@.len() implies seq_to_map(
                    s0,
                ).contains_key(*#[trigger] pairs@[i].0) && seq_to_map(s0)[*pairs@[i].0]
                    == *pairs@[i].1 by {
                    crate::model::lemma_seq_to_map_index(s0, n - 1 - i);
                }
                assert forall|i: int, j: int|
                    0 <= i < j < pairs@.len() implies *pairs@[i].0 !== *pairs@[j].0 by {
                    assert(*pairs@[i].0 == s0[n - 1 - i].0);
                    assert(*pairs@[j].0 == s0[n - 1 - j].0);
                }
                assert forall|i: int| 0 <= i < pairs@.len() implies seq_to_map(sf)[
                    #[trigger] *pairs@[i].0] == *final(pairs@[i].1) by {
                    crate::model::lemma_seq_to_map_index(sf, n - 1 - i);
                    assert(sf[n - 1 - i] == (s0[n - 1 - i].0, *final(pairs@[i].1)));
                }
                assert forall|k: K| #[trigger] seq_to_map(s0).contains_key(
                    k,
                ) implies exists|i: int| 0 <= i < pairs@.len() && *pairs@[i].0 == k by {
                    let i = choose|i: int| 0 <= i < s0.len() && s0[i].0 == k;
                    assert(*pairs@[n - 1 - i].0 == k);
                }
            }
        }
    IterMut { pairs }
}

/// Steps any iterator through its trait specification.
fn generic_next<I: Iterator>(it: &mut I) -> (r: Option<I::Item>)
    ensures
        (*final(it)).obeys_prophetic_iter_laws() == (*old(it)).obeys_prophetic_iter_laws(),
        (*final(it)).obeys_prophetic_iter_laws() ==> ({
            if (*old(it)).remaining().len() > 0 {
                &&& (*final(it)).remaining() == (*old(it)).remaining().drop_first()
                &&& r == Some((*old(it)).remaining()[0])
            } else {
                &&& (*final(it)).remaining() == (*old(it)).remaining()
                &&& r is None
            }
        }),
{
    it.next()
}

/// Collects the hash table's pairs into a vector of borrows, in the
/// table's iteration order.
fn collect_table_pairs<'a, K, V, S>(m: &'a std::collections::HashMap<K, V, S>) -> (out: Vec<
    (&'a K, &'a V),
>)
    ensures
        obeys_key_model::<K>() && builds_valid_hashers::<S>() ==> enumerates(deref_pairs(out@), m@)
            && deref_pairs(out@).len() == m@.len(),
{
    let mut out: Vec<(&K, &V)> = Vec::new();
    let n = m.len();
    let mut it = m.iter();
    let ghost all = it.remaining();
    let mut steps: usize = 0;
    while steps < n
        invariant
            steps <= n,
            it.obeys_prophetic_iter_laws(),
            obeys_key_model::<K>() && builds_valid_hashers::<S>() ==> {
                &&& all == vstd::std_specs::hash::spec_hash_map_iter(m).remaining()
                &&& all.no_duplicates()
                &&& all.len() == n
                &&& out@.len() == steps
                &&& out@ =~= all.take(steps as int)
                &&& it.remaining() =~= all.skip(steps as int)
            },
        ensures
            obeys_key_model::<K>() && builds_valid_hashers::<S>() ==> out@ =~= all,
        decreases n - steps,
    {
        match generic_next(&mut it) {
            Some(p) => {
                out.push(p);
            },
            None => {
                proof {
                    if obeys_key_model::<K>() && builds_valid_hashers::<S>() {
                        assert(false);
                    }
                }
                break ;
            },
        }
        steps += 1;
    }
    proof {
        if obeys_key_model::<K>() && builds_valid_hashers::<S>() {
            let v = out@;
            assert(v =~= vstd::std_specs::hash::spec_hash_map_iter(m).remaining());
            assert forall|i: int, j: int| 0 <= i < j < deref_pairs(v).len() implies deref_pairs(
                v,
            )[i].0 !== deref_pairs(v)[j].0 by {
                if *v[i].0 == *v[j].0 {
                    assert(m@[*v[i].0] == *v[i].1);
                    assert(m@[*v[j].0] == *v[j].1);
                    assert(v[i] == v[j]);
                }
            }
            assert forall|k: K| #[trigger] m@.contains_key(k) implies exists|i: int|
                0 <= i < deref_pairs(v).len() && deref_pairs(v)[i].0 == k by {
                assert(v.contains((&k, &m@[k])));
                let i = choose|i: int| 0 <= i < v.len() && v[i] == (&k, &m@[k]);
                assert(deref_pairs(v)[i].0 == k);
            }
        }
    }
    out
}

/// Iterator over the keys, projecting the shared pair iterator.
pub struct Keys<'a, K, V> {
    /// The underlying pair iterator.
    pub inner: Iter<'a, K, V>,
}

impl<'a, K, V> Keys<'a, K, V> {
    /// The next key, or nothing once all keys have been yielded.
    pub fn next(&mut self) -> (r: Option<&'a K>)
        requires
            old(self).inner.wf(),
        ensures
            final(self).inner.wf(),
            final(self).inner.elems() == old(self).inner.elems(),
            match r {
                Some(k) => {
                    &&& old(self).inner.pos < old(self).inner.elems().len()
                    &&& *k == old(self).inner.elems()[old(self).inner.pos as int].0
                    &&& final(self).inner.pos == old(self).inner.pos + 1
                },
                None => {
                    &&& old(self).inner.pos == old(self).inner.elems().len()
                    &&& final(self).inner.pos == old(self).inner.pos
                },
            },
    {
        match self.inner.next() {
            Some(p) => Some(p.0),
            None => None,
        }
    }

    /// Bounds on the number of keys still to come: exact here.
    pub fn size_hint(&self) -> (r: (usize, Option<usize>))
        requires
            self.inner.wf(),
        ensures
            r.0 == self.inner.remaining().len(),
            r.1 == Some(r.0),
    {
        self.inner.size_hint()
    }
}

/// Iterator over the values, projecting the shared pair iterator.
pub struct Values<'a, K, V> {
    /// The underlying pair iterator.
    pub inner: Iter<'a, K, V>,
}

impl<'a, K, V> Values<'a, K, V> {
    /// The next value, or nothing once all values have been yielded.
    pub fn next(&mut self) -> (r: Option<&'a V>)
        requires
            old(self).inner.wf(),
        ensures
            final(self).inner.wf(),
            final(self).inner.elems() == old(self).inner.elems(),
            match r {
                Some(v) => {
                    &&& old(self).inner.pos < old(self).inner.elems().len()
                    &&& *v == old(self).inner.elems()[old(self).inner.pos as int].1
                    &&& final(self).inner.pos == old(self).inner.pos + 1
                },
                None => {
                    &&& old(self).inner.pos == old(self).inner.elems().len()
                    &&& final(self).inner.pos == old(self).inner.pos
                },
            },
    {
        match self.inner.next() {
            Some(p) => Some(p.1),
            None => None,
        }
    }

    /// Bounds on the number of values still to come: exact here.
    pub fn size_hint(&self) -> (r: (usize, Option<usize>))
        requires
            self.inner.wf(),
        ensures
            r.0 == self.inner.remaining().len(),
            r.1 == Some(r.0),
    {
        self.inner.size_hint()
    }
}

/// Iterator over mutable value slots, projecting the mutable pair
/// iterator.
pub struct ValuesMut<'a, K, V> {
    /// The underlying mutable pair iterator.
    pub inner: IterMut<'a, K, V>,
}

impl<'a, K, V> ValuesMut<'a, K, V> {
    /// The next mutable value slot, or nothing once all have been
    /// yielded.
    pub fn next(&mut self) -> (r: Option<&'a mut V>)
        ensures
            match r {
                Some(v) => {
                    &&& old(self).inner.pairs@.len() > 0
                    &&& *v == *old(self).inner.pairs@.last().1
                    &&& *final(v) == *final(old(self).inner.pairs@.last().1)
                    &&& final(self).inner.pairs@ == old(self).inner.pairs@.drop_last()
                },
                None => {
                    &&& old(self).inner.pairs@.len() == 0
                    &&& final(self).inner.pairs@ == old(self).inner.pairs@
                },
            },
    {
        match self.inner.next() {
            Some(p) => Some(p.1),
            None => None,
        }
    }

    /// Bounds on the number of values still to come: exact here.
    pub fn size_hint(&self) -> (r: (usize, Option<usize>))
        ensures
            r.0 == self.inner.pairs@.len(),
            r.1 == Some(r.0),
    {
        self.inner.size_hint()
    }
}

/// Draining iterator: it owns the pairs, which have already left the
/// container, and yields them one by one.  Dropping it simply drops the
/// pairs that were not consumed.
pub struct Drain<K, V> {
    /// The pairs still to be yielded.
    pub pairs: Vec<(K, V)>,
}

impl<K, V> Drain<K, V> {
    /// The pairs not yet yielded.
    pub open spec fn remaining(self) -> Seq<(K, V)> {
        self.pairs@
    }

    /// The next drained pair, or nothing once all have been yielded.
    pub fn next(&mut self) -> (r: Option<(K, V)>)
        ensures
            match r {
                Some(p) => {
                    &&& old(self).remaining().len() > 0
                    &&& p == old(self).remaining().last()
                    &&& final(self).remaining() == old(self).remaining().drop_last()
                },
                None => {
                    &&& old(self).remaining().len() == 0
                    &&& final(self).remaining() == old(self).remaining()
                },
            },
    {
        self.pairs.pop()
    }

    /// Bounds on the number of pairs still to come: exact here.
    pub fn size_hint(&self) -> (r: (usize, Option<usize>))
        ensures
            r.0 == self.remaining().len(),
            r.1 == Some(r.0),
    {
        let n = self.pairs.len();
        (n, Some(n))
    }
}

} // verus!
