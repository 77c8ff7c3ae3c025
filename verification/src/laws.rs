//! The container's headline guarantees, stated on their own.  Each law is
//! proved from the public contracts alone: it quantifies over the results
//! a call can produce (`call_ensures`), so it holds of every execution.

use crate::model::obeys_eq_model;
use crate::model::obeys_map_model;
use crate::HashMap;
use core::hash::BuildHasher;
use core::hash::Hash;
use vstd::prelude::*;

verus! {

/// An insertion tracks the reference map model: whatever backend is
/// active, and whether or not it migrates, the contents afterwards are
/// the contents before with the pair added, and the prior value is
/// returned exactly when the key was present.
pub proof fn lemma_insert_tracks_model<K: Eq + Hash, V, S: BuildHasher + Default>(
    pre: HashMap<K, V, S>,
    post: HashMap<K, V, S>,
    k: K,
    v: V,
    r: Option<V>,
)
    requires
        pre.wf(),
        obeys_map_model::<K, S>(),
        exists|mr: &mut HashMap<K, V, S>|
            {
                &&& *mr == pre
                &&& *final(mr) == post
                &&& #[trigger] call_ensures(HashMap::<K, V, S>::insert, (mr, k, v), r)
            },
    ensures
        post@ == pre@.insert(k, v),
        r is Some <==> pre@.contains_key(k),
        r matches Some(pv) ==> pv == pre@[k],
{
    let mr = choose|mr: &mut HashMap<K, V, S>|
        {
            &&& *mr == pre
            &&& *final(mr) == post
            &&& #[trigger] call_ensures(HashMap::<K, V, S>::insert, (mr, k, v), r)
        };
}

/// A removal tracks the reference map model: the contents afterwards are
/// the contents before without the key, and the removed value is
/// returned exactly when the key was present.
pub proof fn lemma_remove_tracks_model<K: Eq + Hash, V, S: BuildHasher>(
    pre: HashMap<K, V, S>,
    post: HashMap<K, V, S>,
    k: &K,
    r: Option<V>,
)
    requires
        pre.wf(),
        obeys_map_model::<K, S>(),
        exists|mr: &mut HashMap<K, V, S>|
            {
                &&& *mr == pre
                &&& *final(mr) == post
                &&& #[trigger] call_ensures(HashMap::<K, V, S>::remove, (mr, k), r)
            },
    ensures
        r matches Some(pv) ==> pre@.contains_key(*k) && pv == pre@[*k] && post@ == pre@.remove(*k),
        r is None ==> !pre@.contains_key(*k) && post@ == pre@,
{
    let mr = choose|mr: &mut HashMap<K, V, S>|
        {
            &&& *mr == pre
            &&& *final(mr) == post
            &&& #[trigger] call_ensures(HashMap::<K, V, S>::remove, (mr, k), r)
        };
}

/// Equality of containers is backend-independent: two containers holding
/// the same abstract contents compare equal through `content_eq`, however
/// each of them is stored and hashed.
pub proof fn lemma_content_eq_backend_independent<
    K: Eq + Hash,
    V: PartialEq,
    S: BuildHasher,
    S1: BuildHasher,
>(a: HashMap<K, V, S>, b: HashMap<K, V, S1>, r: bool)
    requires
        a.wf(),
        b.wf(),
        obeys_map_model::<K, S>(),
        obeys_map_model::<K, S1>(),
        obeys_eq_model::<V>(),
        a@ == b@,
        call_ensures(HashMap::<K, V, S>::content_eq, (&a, &b), r),
    ensures
        r,
{
    assert(a@ =~= b@);
}

} // verus!
