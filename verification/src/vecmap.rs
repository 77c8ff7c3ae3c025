//! The linear backend: an ordered sequence of unique key/value pairs,
//! searched by equality scan.  No hashing is performed here; a hasher is
//! stored only so that `hasher()` can be answered while this backend is
//! active (a migration builds its table with a default hasher).

use crate::model::obeys_eq_model;
use crate::model::lemma_seq_to_map_contains;
use crate::model::lemma_seq_to_map_index;
use crate::model::lemma_seq_to_map_len;
use crate::model::lemma_seq_to_map_push;
use crate::model::lemma_seq_to_map_swap_remove;
use crate::model::lemma_seq_to_map_update;
use crate::model::seq_to_map;
use crate::model::unique_keys;
use vstd::prelude::*;

verus! {

/// The linear store.  The fields are public so that specifications can
/// speak about the stored sequence directly.
#[derive(Clone)]
pub struct VecMap<K, V, S> {
    /// The stored pairs, in insertion order.
    pub v: Vec<(K, V)>,
    /// Kept only so that the container can hand out a hasher reference
    /// while the linear backend is active; a migration does not reuse it.
    pub hasher: S,
}

impl<K, V, S> View for VecMap<K, V, S> {
    type V = Map<K, V>;

    open spec fn view(&self) -> Map<K, V> {
        seq_to_map(self.v@)
    }
}

impl<K: PartialEq, V, S> VecMap<K, V, S> {
    /// For key types whose executable equality decides logical equality,
    /// the stored keys are unique.  (For other key types the scan cannot
    /// be held to the logical model, so nothing is promised.)
    pub open spec fn wf(self) -> bool {
        obeys_eq_model::<K>() ==> unique_keys(self.v@)
    }

    /// An empty linear store using the given hasher.
    pub fn with_hasher(hasher: S) -> (m: Self)
        ensures
            m.v@ =~= Seq::<(K, V)>::empty(),
            m@ =~= Map::<K, V>::empty(),
            m.wf(),
    {
        VecMap { v: Vec::new(), hasher }
    }

    /// An empty linear store with room for `capacity` pairs.
    pub fn with_capacity_and_hasher(capacity: usize, hasher: S) -> (m: Self)
        ensures
            m.v@ =~= Seq::<(K, V)>::empty(),
            m@ =~= Map::<K, V>::empty(),
            m.wf(),
    {
        VecMap { v: Vec::with_capacity(capacity), hasher }
    }

    /// The number of stored pairs, which under the model equals the number
    /// of keys in the represented map.
    pub fn len(&self) -> (n: usize)
        ensures
            n == self.v@.len(),
            self.wf() && obeys_eq_model::<K>() ==> n == self@.len(),
    {
        proof {
            if obeys_eq_model::<K>() && self.wf() {
                lemma_seq_to_map_len(self.v@);
            }
        }
        self.v.len()
    }

    /// Whether no pair is stored.
    pub fn is_empty(&self) -> (b: bool)
        ensures
            b == (self.v@.len() == 0),
            b == self@.is_empty(),
    {
        proof {
            if self.v@.len() == 0 {
                assert(self@ =~= Map::<K, V>::empty());
            } else {
                lemma_seq_to_map_contains(self.v@, self.v@.last().0);
            }
        }
        self.v.len() == 0
    }

    /// Reference to the stored hasher.
    pub fn hasher(&self) -> &S {
        &self.hasher
    }

    /// Drops all pairs; keeps the allocation.
    pub fn clear(&mut self)
        ensures
            final(self).v@ =~= Seq::<(K, V)>::empty(),
            final(self)@ =~= Map::<K, V>::empty(),
            final(self).wf(),
            final(self).hasher == old(self).hasher,
    {
        self.v.clear();
    }

    /// Relies on `Vec::capacity`: the sequence can hold at least as many
    /// pairs as it currently holds.
    #[verifier::external_body]
    pub fn capacity(&self) -> (r: usize)
        ensures
            self.v@.len() <= r,
    {
        self.v.capacity()
    }

    /// Relies on `Vec::shrink_to_fit`: the stored pairs are unchanged.
    #[verifier::external_body]
    pub fn shrink_to_fit(&mut self)
        ensures
            final(self).v@ == old(self).v@,
            final(self).hasher == old(self).hasher,
    {
        self.v.shrink_to_fit()
    }

    /// Relies on `Vec::iter_mut`, walked back to front (projecting each
    /// pair to its key and a mutable borrow of its value): the keys stay
    /// as they are, and each stored value becomes whatever the caller
    /// leaves in its slot.  The result lists the last stored pair first,
    /// so that popping it yields the pairs in storage order.
    #[verifier::external_body]
    pub fn pairs_mut(&mut self) -> (r: Vec<(&K, &mut V)>)
        ensures
            r@.len() == old(self).v@.len(),
            forall|i: int|
                0 <= i < r@.len() ==> *r@[i].0 == old(self).v@[r@.len() - 1 - i].0 && *r@[i].1
                    == old(self).v@[r@.len() - 1 - i].1,
            final(self).v@ == Seq::new(
                old(self).v@.len(),
                |i: int| (old(self).v@[i].0, *final(r@[old(self).v@.len() - 1 - i].1)),
            ),
            final(self).hasher == old(self).hasher,
    {
        self.v.iter_mut().rev().map(|p| (&p.0, &mut p.1)).collect()
    }

    /// Room for at least `additional` more pairs.
    pub fn reserve(&mut self, additional: usize)
        ensures
            final(self).v@ == old(self).v@,
            final(self)@ == old(self)@,
            final(self).hasher == old(self).hasher,
            final(self).wf() == old(self).wf(),
    {
        self.v.reserve(additional);
    }
    /// The index of the pair whose key equals `k`, by linear scan.
    pub(crate) fn find(&self, k: &K) -> (r: Option<usize>)
        ensures
            match r {
                Some(i) => {
                    &&& i < self.v@.len()
                    &&& obeys_eq_model::<K>() ==> self.v@[i as int].0 == *k
                },
                None => obeys_eq_model::<K>() ==> forall|j: int|
                    0 <= j < self.v@.len() ==> self.v@[j].0 !== *k,
            },
            obeys_eq_model::<K>() ==> (r is Some <==> self@.contains_key(*k)),
    {
        let n = self.v.len();
        let mut i: usize = 0;
        while i < n
            invariant
                n == self.v@.len(),
                i <= n,
                obeys_eq_model::<K>() ==> forall|j: int| 0 <= j < i ==> self.v@[j].0 !== *k,
            decreases n - i,
        {
            let p = &self.v[i];
            if p.0 == *k {
                proof {
                    if obeys_eq_model::<K>() {
                        lemma_seq_to_map_contains(self.v@, *k);
                        assert(self.v@[i as int].0 == *k);
                    }
                }
                return Some(i);
            }
            i += 1;
        }
        proof {
            lemma_seq_to_map_contains(self.v@, *k);
        }
        None
    }

    /// Reference to the value stored under `k`, if any.
    pub fn get(&self, k: &K) -> (r: Option<&V>)
        requires
            self.wf(),
        ensures
            obeys_eq_model::<K>() ==> match r {
                Some(v) => self@.contains_key(*k) && *v == self@[*k],
                None => !self@.contains_key(*k),
            },
    {
        match self.find(k) {
            Some(i) => {
                proof {
                    if obeys_eq_model::<K>() {
                        lemma_seq_to_map_index(self.v@, i as int);
                    }
                }
                Some(&self.v[i].1)
            },
            None => None,
        }
    }

    /// Whether a value is stored under `k`.
    pub fn contains_key(&self, k: &K) -> (b: bool)
        requires
            self.wf(),
        ensures
            obeys_eq_model::<K>() ==> b == self@.contains_key(*k),
    {
        self.find(k).is_some()
    }

    /// Mutable reference to the value stored under `k`, if any.
    pub fn get_mut(&mut self, k: &K) -> (r: Option<&mut V>)
        requires
            old(self).wf(),
        ensures
            final(self).wf(),
            final(self).hasher == old(self).hasher,
            final(self).v@.len() == old(self).v@.len(),
            obeys_eq_model::<K>() ==> match r {
                Some(v) => {
                    &&& old(self)@.contains_key(*k)
                    &&& *v == old(self)@[*k]
                    &&& final(self)@ == old(self)@.insert(*k, *final(v))
                },
                None => {
                    &&& !old(self)@.contains_key(*k)
                    &&& *final(self) == *old(self)
                },
            },
    {
        match self.find(k) {
            Some(i) => {
                proof {
                    if obeys_eq_model::<K>() {
                        lemma_seq_to_map_index(self.v@, i as int);
                        let s = self.v@;
                        let ii = i as int;
                        assert forall|w: V|
                            unique_keys(#[trigger] s.update(ii, (s[ii].0, w)))
                                && seq_to_map(s.update(ii, (s[ii].0, w))) == seq_to_map(s).insert(
                                s[ii].0,
                                w,
                            ) by {
                            lemma_seq_to_map_update(s, ii, (s[ii].0, w));
                        }
                    }
                }
                Some(&mut self.v[i].1)
            },
            None => None,
        }
    }
    /// Inserts `v` under `k`.  If `k` is already present the value is
    /// overwritten in place — the stored key and the position of the pair
    /// are kept — and the prior value is returned.  Otherwise the new pair
    /// is appended.
    pub fn insert(&mut self, k: K, v: V) -> (r: Option<V>)
        requires
            old(self).wf(),
        ensures
            final(self).wf(),
            final(self).hasher == old(self).hasher,
            old(self).v@.len() <= final(self).v@.len() <= old(self).v@.len() + 1,
            obeys_eq_model::<K>() ==> {
                &&& final(self)@ == old(self)@.insert(k, v)
                &&& (match r {
                    Some(pv) => {
                        &&& old(self)@.contains_key(k)
                        &&& pv == old(self)@[k]
                        &&& final(self).v@.len() == old(self).v@.len()
                        &&& exists|i: int|
                            {
                                &&& 0 <= i < old(self).v@.len()
                                &&& old(self).v@[i].0 == k
                                &&& final(self).v@ == old(self).v@.update(
                                    i,
                                    (old(self).v@[i].0, v),
                                )
                            }
                    },
                    None => {
                        &&& !old(self)@.contains_key(k)
                        &&& final(self).v@ == old(self).v@.push((k, v))
                    },
                })
            },
    {
        match self.find(&k) {
            Some(i) => {
                proof {
                    if obeys_eq_model::<K>() {
                        lemma_seq_to_map_index(self.v@, i as int);
                        lemma_seq_to_map_update(self.v@, i as int, (self.v@[i as int].0, v));
                    }
                }
                let mut tmp = v;
                core::mem::swap(&mut self.v[i].1, &mut tmp);
                proof {
                    if obeys_eq_model::<K>() {
                        assert(self.v@ =~= old(self).v@.update(
                            i as int,
                            (old(self).v@[i as int].0, v),
                        ));
                    }
                }
                Some(tmp)
            },
            None => {
                proof {
                    lemma_seq_to_map_push(self.v@, k, v);
                }
                self.v.push((k, v));
                None
            },
        }
    }

    /// Appends the pair without scanning for a duplicate key; the caller
    /// guarantees that `k` is not present.
    pub fn insert_nocheck(&mut self, k: K, v: V)
        requires
            old(self).wf(),
            obeys_eq_model::<K>() ==> !old(self)@.contains_key(k),
        ensures
            final(self).wf(),
            final(self).hasher == old(self).hasher,
            final(self).v@ == old(self).v@.push((k, v)),
            final(self)@ == old(self)@.insert(k, v),
    {
        proof {
            lemma_seq_to_map_push(self.v@, k, v);
            lemma_seq_to_map_contains(self.v@, k);
        }
        self.v.push((k, v));
    }

    /// Keeps exactly the pairs on which `f` returns true, in their stored
    /// order; `f` may rewrite each value in place.
    pub fn retain<F: FnMut(&K, &mut V) -> bool>(&mut self, f: F)
        requires
            old(self).wf(),
            forall|i: int, kr: &K, m: &mut V|
                0 <= i < old(self).v@.len() && *kr == old(self).v@[i].0 && *m == old(
                    self,
                ).v@[i].1 ==> call_requires(f, (kr, m)),
        ensures
            final(self).wf(),
            final(self).hasher == old(self).hasher,
            final(self).v@.len() <= old(self).v@.len(),
            obeys_eq_model::<K>() ==> {
                &&& forall|k: K| #[trigger]
                    final(self)@.contains_key(k) ==> old(self)@.contains_key(k)
                &&& forall|k: K| #[trigger]
                    old(self)@.contains_key(k) ==> {
                        ||| {
                            &&& final(self)@.contains_key(k)
                            &&& exists|kr: &K, m: &mut V|
                                {
                                    &&& *kr == k
                                    &&& *m == old(self)@[k]
                                    &&& call_ensures(f, (kr, m), true)
                                    &&& final(self)@[k] == *final(m)
                                }
                        }
                        ||| {
                            &&& !final(self)@.contains_key(k)
                            &&& exists|kr: &K, m: &mut V|
                                {
                                    &&& *kr == k
                                    &&& *m == old(self)@[k]
                                    &&& call_ensures(f, (kr, m), false)
                                }
                        }
                    }
            },
    {
        let ghost orig = old(self).v@;
        let mut src: Vec<(K, V)> = Vec::new();
        core::mem::swap(&mut src, &mut self.v);
        let mut pred = f;
        while src.len() > 0
            invariant
                pred == f,
                src@ =~= orig.skip((orig.len() - src@.len()) as int),
                src@.len() <= orig.len(),
                self.v@.len() + src@.len() <= orig.len(),
                forall|i: int, kr: &K, m: &mut V|
                    0 <= i < orig.len() && *kr == orig[i].0 && *m == orig[i].1 ==> call_requires(
                        pred,
                        (kr, m),
                    ),
                self.hasher == old(self).hasher,
                obeys_eq_model::<K>() ==> {
                    &&& unique_keys(orig)
                    &&& unique_keys(self.v@)
                    &&& forall|t: int|
                        0 <= t < self.v@.len() ==> exists|i: int|
                            0 <= i < orig.len() - src@.len() && orig[i].0 == #[trigger] self.v@[t].0
                    &&& forall|i: int|
                        0 <= i < orig.len() - src@.len() ==> {
                            ||| {
                                &&& seq_to_map(self.v@).contains_key(#[trigger] orig[i].0)
                                &&& exists|kr: &K, m: &mut V|
                                    {
                                        &&& *kr == orig[i].0
                                        &&& *m == orig[i].1
                                        &&& call_ensures(pred, (kr, m), true)
                                        &&& seq_to_map(self.v@)[orig[i].0] == *final(m)
                                    }
                            }
                            ||| {
                                &&& !seq_to_map(self.v@).contains_key(orig[i].0)
                                &&& exists|kr: &K, m: &mut V|
                                    {
                                        &&& *kr == orig[i].0
                                        &&& *m == orig[i].1
                                        &&& call_ensures(pred, (kr, m), false)
                                    }
                            }
                        }
                },
            decreases src@.len(),
        {
            let ghost j = (orig.len() - src@.len()) as int;
            let ghost prev = self.v@;
            let (k, mut v) = src.remove(0);
            proof {
                assert((k, v) == orig[j]);
                assert(src@ =~= orig.skip(j + 1));
            }
            let keep = pred(&k, &mut v);
            if keep {
                proof {
                    lemma_seq_to_map_push(self.v@, k, v);
                    if obeys_eq_model::<K>() {
                        lemma_seq_to_map_contains(self.v@, k);
                    }
                }
                self.v.push((k, v));
            }
            proof {
                if obeys_eq_model::<K>() {
                    assert forall|t: int| 0 <= t < prev.len() implies exists|i: int|
                        0 <= i < j && orig[i].0 == #[trigger] prev[t].0 by {}
                    assert forall|t: int| 0 <= t < prev.len() implies prev[t].0 !== orig[j].0 by {
                        let i = choose|i: int| 0 <= i < j && orig[i].0 == prev[t].0;
                        assert(orig[i].0 !== orig[j].0);
                    }
                    assert(!seq_to_map(prev).contains_key(orig[j].0)) by {
                        lemma_seq_to_map_contains(prev, orig[j].0);
                    }
                    if keep {
                        assert(self.v@ == prev.push((k, v)));
                        assert(unique_keys(self.v@));
                        assert(seq_to_map(self.v@) == seq_to_map(prev).insert(k, v));
                        assert(seq_to_map(self.v@)[orig[j].0] == v);
                        assert(exists|kr: &K, m: &mut V|
                            {
                                &&& *kr == orig[j].0
                                &&& *m == orig[j].1
                                &&& call_ensures(pred, (kr, m), true)
                                &&& seq_to_map(self.v@)[orig[j].0] == *final(m)
                            });
                    } else {
                        assert(self.v@ == prev);
                        assert(exists|kr: &K, m: &mut V|
                            {
                                &&& *kr == orig[j].0
                                &&& *m == orig[j].1
                                &&& call_ensures(pred, (kr, m), false)
                            });
                    }
                    assert forall|t: int| 0 <= t < self.v@.len() implies exists|i: int|
                        0 <= i < j + 1 && orig[i].0 == #[trigger] self.v@[t].0 by {
                        if t < prev.len() {
                            assert(self.v@[t] == prev[t]);
                            let i = choose|i: int| 0 <= i < j && orig[i].0 == prev[t].0;
                            assert(0 <= i < j + 1 && orig[i].0 == self.v@[t].0);
                        } else {
                            assert(self.v@[t] == (k, v));
                            assert(orig[j].0 == self.v@[t].0);
                        }
                    }
                    assert forall|i: int| 0 <= i < j implies {
                        ||| {
                            &&& seq_to_map(self.v@).contains_key(#[trigger] orig[i].0)
                            &&& exists|kr: &K, m: &mut V|
                                {
                                    &&& *kr == orig[i].0
                                    &&& *m == orig[i].1
                                    &&& call_ensures(pred, (kr, m), true)
                                    &&& seq_to_map(self.v@)[orig[i].0] == *final(m)
                                }
                        }
                        ||| {
                            &&& !seq_to_map(self.v@).contains_key(orig[i].0)
                            &&& exists|kr: &K, m: &mut V|
                                {
                                    &&& *kr == orig[i].0
                                    &&& *m == orig[i].1
                                    &&& call_ensures(pred, (kr, m), false)
                                }
                        }
                    } by {
                        assert(orig[i].0 !== orig[j].0);
                        if seq_to_map(prev).contains_key(orig[i].0) {
                            let (kr, m) = choose|kr: &K, m: &mut V|
                                {
                                    &&& *kr == orig[i].0
                                    &&& *m == orig[i].1
                                    &&& call_ensures(pred, (kr, m), true)
                                    &&& seq_to_map(prev)[orig[i].0] == *final(m)
                                };
                            assert(seq_to_map(self.v@).contains_key(orig[i].0));
                            assert(seq_to_map(self.v@)[orig[i].0] == seq_to_map(prev)[orig[i].0]);
                            assert({
                                &&& *kr == orig[i].0
                                &&& *m == orig[i].1
                                &&& call_ensures(pred, (kr, m), true)
                                &&& seq_to_map(self.v@)[orig[i].0] == *final(m)
                            });
                        } else {
                            assert(!seq_to_map(self.v@).contains_key(orig[i].0));
                        }
                    }
                }
            }
        }
        proof {
            assert(src@.len() == 0);
            assert(final(self).v@ == self.v@);
            assert(orig == old(self).v@);
            if obeys_eq_model::<K>() {
                assert forall|k: K| #[trigger] old(self)@.contains_key(k) implies {
                    ||| {
                        &&& final(self)@.contains_key(k)
                        &&& exists|kr: &K, m: &mut V|
                            {
                                &&& *kr == k
                                &&& *m == old(self)@[k]
                                &&& call_ensures(pred, (kr, m), true)
                                &&& final(self)@[k] == *final(m)
                            }
                    }
                    ||| {
                        &&& !final(self)@.contains_key(k)
                        &&& exists|kr: &K, m: &mut V|
                            {
                                &&& *kr == k
                                &&& *m == old(self)@[k]
                                &&& call_ensures(pred, (kr, m), false)
                            }
                    }
                } by {
                    lemma_seq_to_map_contains(orig, k);
                    let i = choose|i: int| 0 <= i < orig.len() && orig[i].0 == k;
                    lemma_seq_to_map_index(orig, i);
                    assert(orig[i].1 == old(self)@[k]);
                    assert(0 <= i < orig.len() - src@.len());
                    if seq_to_map(self.v@).contains_key(orig[i].0) {
                        let (kr, m) = choose|kr: &K, m: &mut V|
                            {
                                &&& *kr == orig[i].0
                                &&& *m == orig[i].1
                                &&& call_ensures(pred, (kr, m), true)
                                &&& seq_to_map(self.v@)[orig[i].0] == *final(m)
                            };
                        assert({
                            &&& *kr == k
                            &&& *m == old(self)@[k]
                            &&& call_ensures(pred, (kr, m), true)
                            &&& final(self)@[k] == *final(m)
                        });
                    } else {
                        let (kr, m) = choose|kr: &K, m: &mut V|
                            {
                                &&& *kr == orig[i].0
                                &&& *m == orig[i].1
                                &&& call_ensures(pred, (kr, m), false)
                            };
                        assert({
                            &&& *kr == k
                            &&& *m == old(self)@[k]
                            &&& call_ensures(pred, (kr, m), false)
                        });
                    }
                }
                assert forall|k: K| #[trigger] final(self)@.contains_key(k) implies old(
                    self,
                )@.contains_key(k) by {
                    lemma_seq_to_map_contains(self.v@, k);
                    let t = choose|t: int| 0 <= t < self.v@.len() && self.v@[t].0 == k;
                    assert(exists|i: int|
                        0 <= i < orig.len() - src@.len() && orig[i].0 == self.v@[t].0);
                    let i = choose|i: int|
                        0 <= i < orig.len() - src@.len() && orig[i].0 == self.v@[t].0;
                    assert(orig[i].0 == k);
                    lemma_seq_to_map_contains(orig, k);
                }
            }
        }
    }

    /// Removes the pair stored under `k`, if any, and returns its value.
    /// The last pair is moved into the vacated position.
    pub fn remove(&mut self, k: &K) -> (r: Option<V>)
        requires
            old(self).wf(),
        ensures
            final(self).wf(),
            final(self).hasher == old(self).hasher,
            final(self).v@.len() <= old(self).v@.len(),
            obeys_eq_model::<K>() ==> match r {
                Some(v) => {
                    &&& old(self)@.contains_key(*k)
                    &&& v == old(self)@[*k]
                    &&& final(self)@ == old(self)@.remove(*k)
                    &&& final(self).v@.len() + 1 == old(self).v@.len()
                },
                None => {
                    &&& !old(self)@.contains_key(*k)
                    &&& *final(self) == *old(self)
                },
            },
    {
        match self.find(k) {
            Some(i) => {
                proof {
                    if obeys_eq_model::<K>() {
                        lemma_seq_to_map_index(self.v@, i as int);
                        lemma_seq_to_map_swap_remove(self.v@, i as int);
                    }
                }
                let p = self.v.swap_remove(i);
                Some(p.1)
            },
            None => None,
        }
    }
}

} // verus!
