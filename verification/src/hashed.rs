//! The hash backend: a thin adapter over `std::collections::HashMap`.
//!
//! vstd specifies most of the table's operations directly; the few that it
//! does not specify (`get_mut`, the entry API, `drain`, `remove_entry`,
//! `capacity`, `shrink_to_fit`, the hasher constructors) are relied on
//! here through small trusted wrappers whose contracts state what the
//! standard library documents, conditioned — like vstd's own hash-table
//! axioms — on the key and hasher models.

use core::hash::BuildHasher;
use core::hash::Hash;
use vstd::prelude::*;
use vstd::std_specs::hash::builds_valid_hashers;
use vstd::std_specs::hash::obeys_key_model;

verus! {

broadcast use vstd::std_specs::hash::group_hash_axioms;

/// Relies on `RandomState::default`: makes the default hash builder.
#[verifier::external_body]
pub(crate) fn default_random_state() -> std::collections::hash_map::RandomState {
    std::collections::hash_map::RandomState::default()
}

/// Relies on `HashMap::with_hasher`: the returned table is empty.
#[verifier::external_body]
pub(crate) fn table_with_hasher<K, V, S>(hasher: S) -> (m: std::collections::HashMap<K, V, S>)
    ensures
        m@ =~= Map::empty(),
{
    std::collections::HashMap::with_hasher(hasher)
}

/// Relies on `HashMap::with_capacity_and_hasher`: the returned table is
/// empty.
#[verifier::external_body]
pub(crate) fn table_with_capacity_and_hasher<K, V, S>(capacity: usize, hasher: S) -> (m:
    std::collections::HashMap<K, V, S>)
    ensures
        m@ =~= Map::empty(),
{
    std::collections::HashMap::with_capacity_and_hasher(capacity, hasher)
}

/// Relies on `HashMap::hasher`: returns a reference to the table's hasher.
#[verifier::external_body]
pub(crate) fn table_hasher<'a, K, V, S>(m: &'a std::collections::HashMap<K, V, S>) -> &'a S {
    m.hasher()
}

/// Relies on `HashMap::capacity`: the table can hold at least as many
/// elements as it currently holds.
#[verifier::external_body]
pub(crate) fn table_capacity<K, V, S>(m: &std::collections::HashMap<K, V, S>) -> (r: usize)
    ensures
        obeys_key_model::<K>() && builds_valid_hashers::<S>() ==> m@.len() <= r,
{
    m.capacity()
}

/// Relies on `HashMap::shrink_to_fit`: the contents are unchanged.
#[verifier::external_body]
pub(crate) fn table_shrink_to_fit<K: Eq + Hash, V, S: BuildHasher>(
    m: &mut std::collections::HashMap<K, V, S>,
)
    ensures
        final(m)@ == old(m)@,
{
    m.shrink_to_fit()
}

/// Relies on `HashMap::get_mut`: a mutable reference to the value stored
/// under the key, if the key is present.
#[verifier::external_body]
pub(crate) fn table_get_mut<'a, K: Eq + Hash, V, S: BuildHasher>(
    m: &'a mut std::collections::HashMap<K, V, S>,
    k: &K,
) -> (r: Option<&'a mut V>)
    ensures
        obeys_key_model::<K>() && builds_valid_hashers::<S>() ==> match r {
            Some(vr) => {
                &&& old(m)@.contains_key(*k)
                &&& *vr == old(m)@[*k]
                &&& final(m)@ == old(m)@.insert(*k, *final(vr))
            },
            None => {
                &&& !old(m)@.contains_key(*k)
                &&& final(m)@ == old(m)@
            },
        },
{
    m.get_mut(k)
}

/// Relies on the `HashMap` entry API (`entry(k).or_insert(d)`): returns a
/// mutable reference to the value stored under `k`, inserting `d` first
/// when `k` is absent.
#[verifier::external_body]
pub(crate) fn table_entry_or_insert<'a, K: Eq + Hash, V, S: BuildHasher>(
    m: &'a mut std::collections::HashMap<K, V, S>,
    k: K,
    d: V,
) -> (r: &'a mut V)
    ensures
        obeys_key_model::<K>() && builds_valid_hashers::<S>() ==> {
            &&& *r == if old(m)@.contains_key(k) {
                old(m)@[k]
            } else {
                d
            }
            &&& final(m)@ == old(m)@.insert(k, *final(r))
        },
{
    m.entry(k).or_insert(d)
}

/// Relies on `HashMap::remove_entry`: removes and returns the stored pair
/// for the key, if present.
#[verifier::external_body]
pub(crate) fn table_remove_entry<K: Eq + Hash, V, S: BuildHasher>(
    m: &mut std::collections::HashMap<K, V, S>,
    k: &K,
) -> (r: Option<(K, V)>)
    ensures
        obeys_key_model::<K>() && builds_valid_hashers::<S>() ==> match r {
            Some(p) => {
                &&& old(m)@.contains_key(*k)
                &&& p.0 == *k
                &&& p.1 == old(m)@[*k]
                &&& final(m)@ == old(m)@.remove(*k)
            },
            None => {
                &&& !old(m)@.contains_key(*k)
                &&& final(m)@ == old(m)@
            },
        },
{
    m.remove_entry(k)
}

/// Relies on `HashMap::drain`: the table is left empty and every stored
/// pair is yielded exactly once.
#[verifier::external_body]
pub(crate) fn table_drain_to_vec<K: Eq + Hash, V, S: BuildHasher>(
    m: &mut std::collections::HashMap<K, V, S>,
) -> (r: Vec<(K, V)>)
    ensures
        final(m)@ =~= Map::empty(),
        obeys_key_model::<K>() && builds_valid_hashers::<S>() ==> {
            &&& crate::model::unique_keys(r@)
            &&& r@.len() == old(m)@.len()
            &&& forall|i: int|
                0 <= i < r@.len() ==> old(m)@.contains_key(#[trigger] r@[i].0) && old(m)@[r@[i].0]
                    == r@[i].1
            &&& forall|k: K| #[trigger] old(m)@.contains_key(k) ==> exists|i: int|
                0 <= i < r@.len() && r@[i].0 == k
        },
{
    m.drain().collect()
}

/// Relies on `HashMap::get_key_value`: the stored key and value for the
/// looked-up key, if present.
#[verifier::external_body]
pub(crate) fn table_get_key_value<'a, K: Eq + Hash, V, S: BuildHasher>(
    m: &'a std::collections::HashMap<K, V, S>,
    k: &K,
) -> (r: Option<(&'a K, &'a V)>)
    ensures
        obeys_key_model::<K>() && builds_valid_hashers::<S>() ==> match r {
            Some(p) => {
                &&& m@.contains_key(*k)
                &&& *p.0 == *k
                &&& *p.1 == m@[*k]
            },
            None => !m@.contains_key(*k),
        },
{
    m.get_key_value(k)
}

/// Relies on `HashMap::iter_mut`: yields one (key, mutable value) pair
/// for every stored entry; the keys stay as they are, and each stored
/// value becomes whatever the caller leaves in the borrowed slot.
#[verifier::external_body]
pub(crate) fn table_iter_mut_pairs<'a, K: Eq + Hash, V, S: BuildHasher>(
    m: &'a mut std::collections::HashMap<K, V, S>,
) -> (r: Vec<(&'a K, &'a mut V)>)
    ensures
        obeys_key_model::<K>() && builds_valid_hashers::<S>() ==> {
            &&& r@.len() == old(m)@.len()
            &&& (forall|i: int, j: int| 0 <= i < j < r@.len() ==> *r@[i].0 !== *r@[j].0)
            &&& forall|i: int|
                0 <= i < r@.len() ==> old(m)@.contains_key(#[trigger] *r@[i].0) && *r@[i].1 == old(
                    m,
                )@[*r@[i].0]
            &&& forall|k: K| #[trigger] old(m)@.contains_key(k) ==> exists|i: int|
                0 <= i < r@.len() && *r@[i].0 == k
            &&& (forall|k: K| #[trigger]
                final(m)@.contains_key(k) == old(m)@.contains_key(k))
            &&& forall|i: int|
                0 <= i < r@.len() ==> final(m)@[#[trigger] *r@[i].0] == *final(r@[i].1)
        },
{
    m.iter_mut().collect()
}

/// Keeps exactly the pairs on which `f` returns true; `f` may rewrite
/// each value in place.  Implemented by draining the table and inserting
/// the surviving pairs back.
pub(crate) fn table_retain<K: Eq + Hash, V, S: BuildHasher, F: FnMut(&K, &mut V) -> bool>(
    m: &mut std::collections::HashMap<K, V, S>,
    f: F,
)
    requires
        forall|kr: &K, mv: &mut V|
            (obeys_key_model::<K>() && builds_valid_hashers::<S>() ==> old(m)@.contains_key(*kr)
                && *mv == old(m)@[*kr]) ==> call_requires(f, (kr, mv)),
    ensures
        obeys_key_model::<K>() && builds_valid_hashers::<S>() ==> {
            &&& forall|k: K| #[trigger] final(m)@.contains_key(k) ==> old(m)@.contains_key(k)
            &&& forall|k: K| #[trigger]
                old(m)@.contains_key(k) ==> {
                    ||| {
                        &&& final(m)@.contains_key(k)
                        &&& exists|kr: &K, mv: &mut V|
                            {
                                &&& *kr == k
                                &&& *mv == old(m)@[k]
                                &&& call_ensures(f, (kr, mv), true)
                                &&& final(m)@[k] == *final(mv)
                            }
                    }
                    ||| {
                        &&& !final(m)@.contains_key(k)
                        &&& exists|kr: &K, mv: &mut V|
                            {
                                &&& *kr == k
                                &&& *mv == old(m)@[k]
                                &&& call_ensures(f, (kr, mv), false)
                            }
                    }
                }
        },
{
    let mut d = table_drain_to_vec(m);
    let ghost dd = d@;
    let ghost orig_map = old(m)@;
    let mut pred = f;
    while d.len() > 0
        invariant
            pred == f,
            d@ =~= dd.skip((dd.len() - d@.len()) as int),
            d@.len() <= dd.len(),
            forall|kr: &K, mv: &mut V|
                (obeys_key_model::<K>() && builds_valid_hashers::<S>() ==> orig_map.contains_key(
                    *kr,
                ) && *mv == orig_map[*kr]) ==> call_requires(pred, (kr, mv)),
            obeys_key_model::<K>() && builds_valid_hashers::<S>() ==> {
                &&& crate::model::unique_keys(dd)
                &&& forall|i: int|
                    0 <= i < dd.len() ==> orig_map.contains_key(#[trigger] dd[i].0) && orig_map[
                        dd[i].0
                    ] == dd[i].1
                &&& forall|k: K| #[trigger] orig_map.contains_key(k) ==> exists|i: int|
                    0 <= i < dd.len() && dd[i].0 == k
                &&& forall|k: K| #[trigger] m@.contains_key(k) ==> exists|i: int|
                    0 <= i < dd.len() - d@.len() && dd[i].0 == k
                &&& forall|i: int|
                    0 <= i < dd.len() - d@.len() ==> {
                        ||| {
                            &&& m@.contains_key(#[trigger] dd[i].0)
                            &&& exists|kr: &K, mv: &mut V|
                                {
                                    &&& *kr == dd[i].0
                                    &&& *mv == dd[i].1
                                    &&& call_ensures(pred, (kr, mv), true)
                                    &&& m@[dd[i].0] == *final(mv)
                                }
                        }
                        ||| {
                            &&& !m@.contains_key(dd[i].0)
                            &&& exists|kr: &K, mv: &mut V|
                                {
                                    &&& *kr == dd[i].0
                                    &&& *mv == dd[i].1
                                    &&& call_ensures(pred, (kr, mv), false)
                                }
                        }
                    }
            },
        decreases d@.len(),
    {
        let ghost j = (dd.len() - d@.len()) as int;
        let ghost prev = m@;
        let (k, mut v) = d.remove(0);
        proof {
            assert((k, v) == dd[j]);
            assert(d@ =~= dd.skip(j + 1));
            if obeys_key_model::<K>() && builds_valid_hashers::<S>() {
                assert(orig_map.contains_key(k) && orig_map[k] == v);
                assert(!prev.contains_key(dd[j].0)) by {
                    if prev.contains_key(dd[j].0) {
                        let i = choose|i: int| 0 <= i < j && dd[i].0 == dd[j].0;
                        assert(dd[i].0 !== dd[j].0);
                    }
                }
            }
        }
        let keep = pred(&k, &mut v);
        if keep {
            m.insert(k, v);
        }
        proof {
            if obeys_key_model::<K>() && builds_valid_hashers::<S>() {
                assert forall|k2: K| #[trigger] m@.contains_key(k2) implies exists|i: int|
                    0 <= i < j + 1 && dd[i].0 == k2 by {
                    if prev.contains_key(k2) {
                        let i = choose|i: int| 0 <= i < j && dd[i].0 == k2;
                        assert(0 <= i < j + 1 && dd[i].0 == k2);
                    } else {
                        assert(k2 == dd[j].0);
                    }
                }
                if keep {
                    assert(m@.contains_key(dd[j].0));
                    assert(exists|kr: &K, mv: &mut V|
                        {
                            &&& *kr == dd[j].0
                            &&& *mv == dd[j].1
                            &&& call_ensures(pred, (kr, mv), true)
                            &&& m@[dd[j].0] == *final(mv)
                        });
                } else {
                    assert(m@ == prev);
                    assert(!m@.contains_key(dd[j].0));
                    assert(exists|kr: &K, mv: &mut V|
                        {
                            &&& *kr == dd[j].0
                            &&& *mv == dd[j].1
                            &&& call_ensures(pred, (kr, mv), false)
                        });
                }
                assert forall|i: int| 0 <= i < j implies {
                    ||| {
                        &&& m@.contains_key(#[trigger] dd[i].0)
                        &&& exists|kr: &K, mv: &mut V|
                            {
                                &&& *kr == dd[i].0
                                &&& *mv == dd[i].1
                                &&& call_ensures(pred, (kr, mv), true)
                                &&& m@[dd[i].0] == *final(mv)
                            }
                    }
                    ||| {
                        &&& !m@.contains_key(dd[i].0)
                        &&& exists|kr: &K, mv: &mut V|
                            {
                                &&& *kr == dd[i].0
                                &&& *mv == dd[i].1
                                &&& call_ensures(pred, (kr, mv), false)
                            }
                    }
                } by {
                    assert(dd[i].0 !== dd[j].0);
                    if prev.contains_key(dd[i].0) {
                        let (kr, mv) = choose|kr: &K, mv: &mut V|
                            {
                                &&& *kr == dd[i].0
                                &&& *mv == dd[i].1
                                &&& call_ensures(pred, (kr, mv), true)
                                &&& prev[dd[i].0] == *final(mv)
                            };
                        assert(m@.contains_key(dd[i].0) && m@[dd[i].0] == prev[dd[i].0]);
                        assert({
                            &&& *kr == dd[i].0
                            &&& *mv == dd[i].1
                            &&& call_ensures(pred, (kr, mv), true)
                            &&& m@[dd[i].0] == *final(mv)
                        });
                    } else {
                        assert(!m@.contains_key(dd[i].0));
                    }
                }
            }
        }
    }
    proof {
        if obeys_key_model::<K>() && builds_valid_hashers::<S>() {
            assert(d@.len() == 0);
            assert forall|k: K| #[trigger] old(m)@.contains_key(k) implies {
                ||| {
                    &&& final(m)@.contains_key(k)
                    &&& exists|kr: &K, mv: &mut V|
                        {
                            &&& *kr == k
                            &&& *mv == old(m)@[k]
                            &&& call_ensures(f, (kr, mv), true)
                            &&& final(m)@[k] == *final(mv)
                        }
                }
                ||| {
                    &&& !final(m)@.contains_key(k)
                    &&& exists|kr: &K, mv: &mut V|
                        {
                            &&& *kr == k
                            &&& *mv == old(m)@[k]
                            &&& call_ensures(f, (kr, mv), false)
                        }
                }
            } by {
                let i = choose|i: int| 0 <= i < dd.len() && dd[i].0 == k;
                assert(0 <= i < dd.len() - d@.len());
                assert(dd[i].1 == old(m)@[k]);
                if m@.contains_key(dd[i].0) {
                    let (kr, mv) = choose|kr: &K, mv: &mut V|
                        {
                            &&& *kr == dd[i].0
                            &&& *mv == dd[i].1
                            &&& call_ensures(pred, (kr, mv), true)
                            &&& m@[dd[i].0] == *final(mv)
                        };
                    assert({
                        &&& *kr == k
                        &&& *mv == old(m)@[k]
                        &&& call_ensures(f, (kr, mv), true)
                        &&& final(m)@[k] == *final(mv)
                    });
                } else {
                    let (kr, mv) = choose|kr: &K, mv: &mut V|
                        {
                            &&& *kr == dd[i].0
                            &&& *mv == dd[i].1
                            &&& call_ensures(pred, (kr, mv), false)
                        };
                    assert({
                        &&& *kr == k
                        &&& *mv == old(m)@[k]
                        &&& call_ensures(f, (kr, mv), false)
                    });
                }
            }
            assert forall|k: K| #[trigger] final(m)@.contains_key(k) implies old(
                m,
            )@.contains_key(k) by {
                let i = choose|i: int| 0 <= i < dd.len() - d@.len() && dd[i].0 == k;
            }
        }
    }
}

} // verus!
