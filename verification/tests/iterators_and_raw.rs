use halfbrown::raw_entry::RawEntryMut;
use halfbrown::HashMap;

#[test]
fn iter_linear_insertion_order() {
    let mut map = HashMap::new();
    map.insert("a", 1);
    map.insert("b", 2);
    map.insert("c", 3);
    let mut it = map.iter();
    let mut seen: Vec<(&str, i32)> = Vec::new();
    while let Some((k, v)) = it.next() {
        seen.push((*k, *v));
    }
    assert_eq!(seen, vec![("a", 1), ("b", 2), ("c", 3)]);
}

#[test]
fn iter_hashed_covers_all() {
    let mut map: HashMap<u64, u64> = HashMap::with_capacity(64);
    for i in 0..5u64 {
        map.insert(i, i + 100);
    }
    let mut it = map.iter();
    let (lo, hi) = it.size_hint();
    assert_eq!(lo, 5);
    assert_eq!(hi, Some(5));
    let mut seen: Vec<(u64, u64)> = Vec::new();
    while let Some((k, v)) = it.next() {
        seen.push((*k, *v));
    }
    seen.sort();
    assert_eq!(seen, vec![(0, 100), (1, 101), (2, 102), (3, 103), (4, 104)]);
}

#[test]
fn keys_and_values() {
    let mut map = HashMap::new();
    map.insert("a", 1);
    map.insert("b", 2);
    map.insert("c", 3);
    let mut keys = map.keys();
    let mut ks: Vec<&str> = Vec::new();
    while let Some(k) = keys.next() {
        ks.push(*k);
    }
    ks.sort();
    assert_eq!(ks, vec!["a", "b", "c"]);
    let mut values = map.values();
    let mut vs: Vec<i32> = Vec::new();
    while let Some(v) = values.next() {
        vs.push(*v);
    }
    vs.sort();
    assert_eq!(vs, vec![1, 2, 3]);
}

#[test]
fn values_mut_updates_all() {
    let mut map = HashMap::new();
    map.insert("a", 1);
    map.insert("b", 2);
    map.insert("c", 3);
    let mut vm = map.values_mut();
    // the linear backend is visited in insertion order
    let mut seen: Vec<i32> = Vec::new();
    while let Some(v) = vm.next() {
        seen.push(*v);
        *v += 10;
    }
    assert_eq!(seen, vec![1, 2, 3]);
    let mut vs: Vec<i32> = Vec::new();
    let mut values = map.values();
    while let Some(v) = values.next() {
        vs.push(*v);
    }
    vs.sort();
    assert_eq!(vs, vec![11, 12, 13]);
}

#[test]
fn iter_mut_updates_all_hashed() {
    let mut map: HashMap<u64, u64> = HashMap::with_capacity(64);
    for i in 0..4u64 {
        map.insert(i, i);
    }
    let mut im = map.iter_mut();
    while let Some((k, v)) = im.next() {
        *v = *k * 2;
    }
    for i in 0..4u64 {
        assert_eq!(map.get(&i), Some(&(i * 2)));
    }
}

#[test]
fn raw_entry_mut_from_key() {
    let mut map: HashMap<u64, u64> = HashMap::new();
    map.insert(1, 10);
    match map.raw_entry_mut().from_key(&1) {
        RawEntryMut::Occupied(mut o) => {
            *o.get_mut() += 1;
        }
        RawEntryMut::Vacant(_) => panic!("expected an occupied raw entry"),
    }
    assert_eq!(map.get(&1), Some(&11));
    match map.raw_entry_mut().from_key(&2) {
        RawEntryMut::Occupied(_) => panic!("expected a vacant raw entry"),
        RawEntryMut::Vacant(v) => {
            v.insert(2, 20);
        }
    }
    assert_eq!(map.get(&2), Some(&20));
}

#[test]
fn raw_entry_mut_from_hash_predicate() {
    let mut map: HashMap<u64, u64> = HashMap::with_capacity(64);
    map.insert(3, 30);
    match map.raw_entry_mut().from_hash(0, |k| *k == 3) {
        RawEntryMut::Occupied(o) => {
            assert_eq!(*o.get(), 30);
        }
        RawEntryMut::Vacant(_) => panic!("expected an occupied raw entry"),
    }
    match map.raw_entry_mut().from_hash(0, |k| *k == 99) {
        RawEntryMut::Occupied(_) => panic!("expected a vacant raw entry"),
        RawEntryMut::Vacant(v) => {
            v.insert_hashed_nocheck(0, 99, 990);
        }
    }
    assert_eq!(map.get(&99), Some(&990));
}

#[test]
fn raw_entry_shared_lookup() {
    let mut map: HashMap<u64, u64> = HashMap::new();
    map.insert(4, 40);
    assert_eq!(map.raw_entry().from_key(&4), Some((&4, &40)));
    assert_eq!(map.raw_entry().from_key(&5), None);
    assert_eq!(map.raw_entry().from_key_hashed_nocheck(0, &4), Some((&4, &40)));
    assert_eq!(map.raw_entry().from_hash(0, |k| *k == 4), Some((&4, &40)));
    assert_eq!(map.raw_entry().from_hash(0, |k| *k == 9), None);
}

#[test]
fn capacity_and_reserve_and_shrink() {
    let mut map: HashMap<i32, i32> = HashMap::with_capacity(100);
    assert!(map.is_map());
    map.insert(1, 2);
    map.insert(3, 4);
    assert!(map.capacity() >= 2);
    map.shrink_to_fit();
    assert_eq!(map.get(&1), Some(&2));
    assert_eq!(map.get(&3), Some(&4));
    let mut lin: HashMap<i32, i32> = HashMap::new();
    lin.insert(1, 2);
    lin.reserve(10);
    assert!(lin.capacity() >= 1);
    lin.shrink_to_fit();
    assert_eq!(lin.get(&1), Some(&2));
    assert!(lin.is_vec());
}

#[test]
fn constructors_and_hasher() {
    let map: HashMap<u64, u64> = HashMap::vec_with_capacity(128);
    assert!(map.is_vec());
    let s = halfbrown::DefaultHashBuilder::default();
    let mut hashed: HashMap<u64, u64> = HashMap::with_hasher(s);
    assert!(hashed.is_map());
    hashed.insert(1, 2);
    assert_eq!(hashed.get(&1), Some(&2));
    let _ = hashed.hasher();
    let s2 = halfbrown::DefaultHashBuilder::default();
    let mut sized: HashMap<u64, u64> = HashMap::with_capacity_and_hasher(10, s2);
    assert!(sized.is_map());
    sized.insert(1, 2);
    assert_eq!(sized.get(&1), Some(&2));
    let fresh: HashMap<u64, u64> = HashMap::default();
    assert!(fresh.is_vec());
    assert!(fresh.is_empty());
}

#[test]
fn insert_nocheck_bulk_build() {
    let mut map: HashMap<u64, u64> = HashMap::vec_with_capacity(40);
    for i in 0..40u64 {
        map.insert_nocheck(i, i * 2);
    }
    assert!(map.is_vec());
    assert_eq!(map.len(), 40);
    assert_eq!(map.get(&39), Some(&78));
}

#[test]
fn clear_keeps_backend() {
    let mut lin: HashMap<i32, i32> = HashMap::new();
    lin.insert(1, 1);
    lin.clear();
    assert!(lin.is_empty());
    assert!(lin.is_vec());
    let mut hashed: HashMap<i32, i32> = HashMap::with_capacity(40);
    hashed.insert(1, 1);
    hashed.clear();
    assert!(hashed.is_empty());
    assert!(hashed.is_map());
}

#[test]
fn get_mut_on_both_backends() {
    let mut lin: HashMap<i32, i32> = HashMap::new();
    lin.insert(1, 1);
    if let Some(x) = lin.get_mut(&1) {
        *x = 5;
    }
    assert_eq!(lin.get(&1), Some(&5));
    let mut hashed: HashMap<i32, i32> = HashMap::with_capacity(40);
    hashed.insert(1, 1);
    if let Some(x) = hashed.get_mut(&1) {
        *x = 7;
    }
    assert_eq!(hashed.get(&1), Some(&7));
    assert_eq!(hashed.get_mut(&2), None);
}

#[test]
fn clone_preserves_content() {
    let mut map: HashMap<u64, u64> = HashMap::new();
    map.insert(1, 10);
    map.insert(2, 20);
    let copy = map.clone();
    assert!(map == copy);
    assert_eq!(copy.get(&1), Some(&10));
    assert_eq!(copy.get(&2), Some(&20));
}

#[test]
fn migration_preserves_all_pairs() {
    let mut map: HashMap<u64, u64> = HashMap::new();
    for i in 0..33u64 {
        map.insert(i, i * 3);
    }
    assert!(map.is_map());
    assert_eq!(map.len(), 33);
    for i in 0..33u64 {
        assert_eq!(map.get(&i), Some(&(i * 3)));
    }
}
