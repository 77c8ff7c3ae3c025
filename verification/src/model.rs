//! The mathematical model shared by both backends.
//!
//! A container is modelled as a `Map<K, V>`.  The linear backend stores a
//! sequence of key/value pairs; `seq_to_map` turns such a sequence into the
//! map it represents.  The contracts of the executable code are meaningful
//! for key types whose `==` and hashing agree with logical equality; the
//! predicates `obeys_eq_model` and `obeys_map_model` capture exactly that,
//! in the style of vstd's hash-table specifications.

use vstd::prelude::*;
use vstd::std_specs::cmp::PartialEqSpec;
use vstd::std_specs::hash::builds_valid_hashers;
use vstd::std_specs::hash::obeys_key_model;

verus! {

/// Executable equality on `K` decides logical equality: `a == b` (the
/// `PartialEq` method) returns exactly whether the two values are equal
/// in specifications.  Holds for the primitive integer types and `bool`.
pub open spec fn obeys_eq_model<K: PartialEqSpec>() -> bool {
    &&& K::obeys_eq_spec()
    &&& forall|a: K, b: K| #[trigger] a.eq_spec(&b) <==> a == b
}

/// Everything the container's contracts rely on: executable equality
/// decides logical equality, and hashing behaves as vstd's key model and
/// hasher model describe.  Holds for primitive keys with the default
/// hasher.
pub open spec fn obeys_map_model<K: PartialEqSpec, S>() -> bool {
    &&& obeys_eq_model::<K>()
    &&& obeys_key_model::<K>()
    &&& builds_valid_hashers::<S>()
}

/// Cloning a key yields an equal key.  Holds for the primitive integer
/// types, whose `clone` vstd specifies as the identity.
pub open spec fn obeys_clone_model<K: Clone>() -> bool {
    forall|a: K, b: K| #[trigger] vstd::pervasive::cloned(a, b) ==> a == b
}

/// No two pairs of the sequence carry equal keys.
pub open spec fn unique_keys<K, V>(s: Seq<(K, V)>) -> bool {
    forall|i: int, j: int| 0 <= i < j < s.len() ==> s[i].0 !== s[j].0
}

/// The map represented by a sequence of pairs; later pairs win, though
/// under `unique_keys` the order cannot matter.
pub open spec fn seq_to_map<K, V>(s: Seq<(K, V)>) -> Map<K, V>
    decreases s.len(),
{
    if s.len() == 0 {
        Map::empty()
    } else {
        seq_to_map(s.drop_last()).insert(s.last().0, s.last().1)
    }
}

/// The sequence lists exactly the contents of the map: no key twice,
/// every listed pair stored, every stored key listed.
pub open spec fn enumerates<K, V>(s: Seq<(K, V)>, m: Map<K, V>) -> bool {
    &&& unique_keys(s)
    &&& forall|i: int| 0 <= i < s.len() ==> m.contains_key(#[trigger] s[i].0) && m[s[i].0] == s[i].1
    &&& forall|k: K| #[trigger] m.contains_key(k) ==> exists|i: int| 0 <= i < s.len() && s[i].0 == k
}

/// A sequence with unique keys enumerates the map it represents.
pub proof fn lemma_enumerates_self<K, V>(s: Seq<(K, V)>)
    requires
        unique_keys(s),
    ensures
        enumerates(s, seq_to_map(s)),
        seq_to_map(s).len() == s.len(),
{
    lemma_seq_to_map_len(s);
    assert forall|i: int| 0 <= i < s.len() implies seq_to_map(s).contains_key(#[trigger] s[i].0)
        && seq_to_map(s)[s[i].0] == s[i].1 by {
        lemma_seq_to_map_index(s, i);
    }
    assert forall|k: K| #[trigger] seq_to_map(s).contains_key(k) implies exists|i: int|
        0 <= i < s.len() && s[i].0 == k by {
        lemma_seq_to_map_contains(s, k);
    }
}

/// A key is in the represented map exactly when some pair of the sequence
/// carries it.
pub proof fn lemma_seq_to_map_contains<K, V>(s: Seq<(K, V)>, k: K)
    ensures
        seq_to_map(s).contains_key(k) <==> exists|i: int| 0 <= i < s.len() && s[i].0 == k,
    decreases s.len(),
{
    if s.len() > 0 {
        lemma_seq_to_map_contains(s.drop_last(), k);
        if s.last().0 == k {
            assert(s[s.len() - 1].0 == k);
        } else if seq_to_map(s).contains_key(k) {
            let i = choose|i: int| 0 <= i < s.drop_last().len() && s.drop_last()[i].0 == k;
            assert(s[i].0 == k);
        } else if exists|i: int| 0 <= i < s.len() && s[i].0 == k {
            let i = choose|i: int| 0 <= i < s.len() && s[i].0 == k;
            assert(s.drop_last()[i].0 == k);
        }
    }
}

/// The domain of the represented map is finite (it is built by inserts).
pub proof fn lemma_seq_to_map_finite<K, V>(s: Seq<(K, V)>)
    ensures
        seq_to_map(s).dom().finite(),
    decreases s.len(),
{
    if s.len() > 0 {
        lemma_seq_to_map_finite(s.drop_last());
    }
}

/// With unique keys, the pair at any index gives the represented value of
/// its key.
pub proof fn lemma_seq_to_map_index<K, V>(s: Seq<(K, V)>, i: int)
    requires
        unique_keys(s),
        0 <= i < s.len(),
    ensures
        seq_to_map(s).contains_key(s[i].0),
        seq_to_map(s)[s[i].0] == s[i].1,
    decreases s.len(),
{
    lemma_seq_to_map_contains(s, s[i].0);
    if i == s.len() - 1 {
    } else {
        assert(s.drop_last()[i] == s[i]);
        lemma_seq_to_map_index(s.drop_last(), i);
        assert(s[i].0 !== s.last().0);
    }
}

/// With unique keys, the represented map has exactly one entry per pair.
pub proof fn lemma_seq_to_map_len<K, V>(s: Seq<(K, V)>)
    requires
        unique_keys(s),
    ensures
        seq_to_map(s).dom().finite(),
        seq_to_map(s).len() == s.len(),
    decreases s.len(),
{
    lemma_seq_to_map_finite(s);
    if s.len() > 0 {
        lemma_seq_to_map_len(s.drop_last());
        lemma_seq_to_map_contains(s.drop_last(), s.last().0);
        assert(forall|i: int| 0 <= i < s.drop_last().len() ==> s[i].0 !== s.last().0);
        assert(!seq_to_map(s.drop_last()).contains_key(s.last().0));
    }
}

/// Appending a pair with a fresh key inserts it into the represented map.
pub proof fn lemma_seq_to_map_push<K, V>(s: Seq<(K, V)>, k: K, v: V)
    ensures
        seq_to_map(s.push((k, v))) == seq_to_map(s).insert(k, v),
{
    assert(s.push((k, v)).drop_last() =~= s);
}

/// Overwriting the value at an index updates the represented map at that
/// pair's key.
pub proof fn lemma_seq_to_map_update<K, V>(s: Seq<(K, V)>, i: int, p: (K, V))
    requires
        unique_keys(s),
        0 <= i < s.len(),
        p.0 == s[i].0,
    ensures
        unique_keys(s.update(i, p)),
        seq_to_map(s.update(i, p)) =~= seq_to_map(s).insert(p.0, p.1),
    decreases s.len(),
{
    let t = s.update(i, p);
    assert(forall|j: int| 0 <= j < s.len() && j != i ==> t[j] == s[j]);
    if i == s.len() - 1 {
        assert(t.drop_last() =~= s.drop_last());
    } else {
        assert(t.last() == s.last());
        assert(t.drop_last() =~= s.drop_last().update(i, p));
        lemma_seq_to_map_update(s.drop_last(), i, p);
        assert(p.0 !== s.last().0);
        assert(seq_to_map(t) =~= seq_to_map(s).insert(p.0, p.1));
    }
}

/// Removing the pair at an index (by moving the last pair into its place)
/// removes exactly that pair's key from the represented map.
pub proof fn lemma_seq_to_map_swap_remove<K, V>(s: Seq<(K, V)>, i: int)
    requires
        unique_keys(s),
        0 <= i < s.len(),
    ensures
        unique_keys(s.update(i, s.last()).drop_last()),
        seq_to_map(s.update(i, s.last()).drop_last()) =~= seq_to_map(s).remove(s[i].0),
{
    let t = s.update(i, s.last()).drop_last();
    if i == s.len() - 1 {
        assert(t =~= s.drop_last());
        lemma_seq_to_map_contains(s.drop_last(), s.last().0);
        assert(!seq_to_map(s.drop_last()).contains_key(s.last().0));
        assert(seq_to_map(s.drop_last()) =~= seq_to_map(s).remove(s[i].0));
    } else {
        assert(forall|j: int| 0 <= j < t.len() && j != i ==> t[j] == s[j]);
        assert(t[i] == s.last());
        assert(unique_keys(t));
        assert forall|k: K| seq_to_map(t).contains_key(k) <==> seq_to_map(s).remove(
            s[i].0,
        ).contains_key(k) by {
            lemma_seq_to_map_contains(t, k);
            lemma_seq_to_map_contains(s, k);
            if seq_to_map(t).contains_key(k) {
                let j = choose|j: int| 0 <= j < t.len() && t[j].0 == k;
                if j == i {
                    assert(s[s.len() - 1].0 == k);
                } else {
                    assert(s[j].0 == k);
                }
                assert(k !== s[i].0);
            }
            if seq_to_map(s).remove(s[i].0).contains_key(k) {
                let j = choose|j: int| 0 <= j < s.len() && s[j].0 == k;
                if j == s.len() - 1 {
                    assert(t[i].0 == k);
                } else if j != i {
                    assert(t[j].0 == k);
                }
            }
        }
        assert forall|k: K| #[trigger] seq_to_map(t).contains_key(k) implies seq_to_map(t)[k]
            == seq_to_map(s)[k] by {
            lemma_seq_to_map_contains(t, k);
            let j = choose|j: int| 0 <= j < t.len() && t[j].0 == k;
            lemma_seq_to_map_index(t, j);
            if j == i {
                lemma_seq_to_map_index(s, s.len() - 1);
            } else {
                lemma_seq_to_map_index(s, j);
            }
        }
    }
}

} // verus!
