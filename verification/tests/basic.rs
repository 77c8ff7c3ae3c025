use halfbrown::HashMap;

#[test]
fn scale_up() {
    let mut v = HashMap::new();
    assert!(v.is_vec());
    for i in 1..33 {
        // 32 entries
        v.insert(i, i);
        assert!(v.is_vec());
    }
    v.insert(33, 33);
    assert!(v.is_map());
}

#[test]
fn str_key() {
    let mut v: HashMap<String, u32> = HashMap::new();
    v.insert("hello".to_owned(), 42);
    assert_eq!(*v.index(&"hello".to_owned()), 42);
}

#[test]
fn add_remove() {
    let mut v = HashMap::new();
    v.insert(1, 1);
    v.insert(2, 2);
    v.insert(3, 3);
    assert_eq!(v.get(&1), Some(&1));
    assert_eq!(v.get(&2), Some(&2));
    assert_eq!(v.get(&3), Some(&3));
    v.remove(&2);
    assert_eq!(v.get(&1), Some(&1));
    assert_eq!(v.get(&2), None);
    assert_eq!(v.get(&3), Some(&3));
}

#[test]
fn insert_returns_prior_value() {
    let mut map = HashMap::new();
    assert_eq!(map.insert(37, "a"), None);
    assert_eq!(map.is_empty(), false);
    map.insert(37, "b");
    assert_eq!(map.insert(37, "c"), Some("b"));
    assert_eq!(map.get(&37), Some(&"c"));
}

#[test]
fn insert_returns_prior_value_hashed() {
    let mut map = HashMap::with_capacity(100);
    assert!(map.is_map());
    assert_eq!(map.insert(37, "a"), None);
    map.insert(37, "b");
    assert_eq!(map.insert(37, "c"), Some("b"));
    assert_eq!(map.get(&37), Some(&"c"));
}

#[test]
fn backend_stays_hashed_after_removals() {
    let mut v = HashMap::new();
    for i in 1..34 {
        v.insert(i, i);
    }
    assert!(v.is_map());
    for i in 1..34 {
        v.remove(&i);
    }
    assert!(v.is_map());
    assert!(v.is_empty());
}

#[test]
fn matches_reference_model() {
    let mut ours: HashMap<u64, u64> = HashMap::new();
    let mut reference: std::collections::BTreeMap<u64, u64> = std::collections::BTreeMap::new();
    // a mixed sequence of insertions, overwrites and removals that crosses
    // the migration threshold
    for i in 0..50u64 {
        ours.insert(i % 37, i);
        reference.insert(i % 37, i);
    }
    for i in 0..12u64 {
        ours.remove(&(i * 3));
        reference.remove(&(i * 3));
    }
    ours.insert(7, 700);
    reference.insert(7, 700);
    assert_eq!(ours.len(), reference.len());
    let mut pairs: Vec<(u64, u64)> = Vec::new();
    let mut it = ours.iter();
    while let Some((k, v)) = it.next() {
        pairs.push((*k, *v));
    }
    pairs.sort();
    let expected: Vec<(u64, u64)> = reference.iter().map(|(k, v)| (*k, *v)).collect();
    assert_eq!(pairs, expected);
}

#[test]
fn equal_across_backends() {
    let mut small: HashMap<u64, u64> = HashMap::new();
    for i in 0..10u64 {
        small.insert(i, i * 10);
    }
    assert!(small.is_vec());
    let mut large: HashMap<u64, u64> = HashMap::new();
    for i in 0..40u64 {
        large.insert(i, i * 10);
    }
    for i in 10..40u64 {
        large.remove(&i);
    }
    assert!(large.is_map());
    assert!(small == large);
    assert!(large == small);
    assert!(small.content_eq(&large));
    large.insert(3, 0);
    assert!(!(small == large));
    large.insert(3, 30);
    large.insert(100, 1);
    assert!(!(small == large));
    assert!(!small.content_eq(&large));
}

#[test]
fn drain_partially_consumed_leaves_empty() {
    let mut a = HashMap::new();
    a.insert(1, "a");
    a.insert(2, "b");
    let mut d = a.drain();
    let first = d.next();
    match first {
        Some((k, v)) => {
            assert!(k == 1 || k == 2);
            assert!(v == "a" || v == "b");
        }
        None => panic!("drain of a two-element container yielded nothing"),
    }
    drop(d);
    assert!(a.is_empty());
}

#[test]
fn drain_fully_consumed() {
    let mut a = HashMap::with_capacity(50);
    a.insert(1, 10);
    a.insert(2, 20);
    let mut d = a.drain();
    let mut pairs: Vec<(i32, i32)> = Vec::new();
    while let Some(p) = d.next() {
        pairs.push(p);
    }
    pairs.sort();
    assert_eq!(pairs, vec![(1, 10), (2, 20)]);
    assert!(a.is_empty());
    assert!(a.is_map());
}

#[test]
fn retain_even_keys() {
    let mut map: HashMap<i32, i32> = HashMap::new();
    for x in 0..8 {
        map.insert(x, x * 10);
    }
    map.retain(|&k, _| k % 2 == 0);
    assert_eq!(map.len(), 4);
    for x in 0..8 {
        if x % 2 == 0 {
            assert_eq!(map.get(&x), Some(&(x * 10)));
        } else {
            assert_eq!(map.get(&x), None);
        }
    }
}

#[test]
fn retain_on_hashed_backend() {
    let mut map: HashMap<i32, i32> = HashMap::with_capacity(64);
    assert!(map.is_map());
    for x in 0..8 {
        map.insert(x, x * 10);
    }
    map.retain(|&k, _| k % 2 == 0);
    assert_eq!(map.len(), 4);
    assert_eq!(map.get(&2), Some(&20));
    assert_eq!(map.get(&3), None);
}

#[test]
fn retain_may_rewrite_values() {
    let mut map: HashMap<i32, i32> = HashMap::new();
    for x in 0..4 {
        map.insert(x, x);
    }
    map.retain(|_, v| {
        *v += 100;
        true
    });
    assert_eq!(map.get(&0), Some(&100));
    assert_eq!(map.get(&3), Some(&103));
}
