use halfbrown::entry::Entry;
use halfbrown::HashMap;

#[test]
fn and_modify_then_or_insert() {
    let mut map: HashMap<&str, u32> = HashMap::new();
    map.entry("poneyland").and_modify(|e| *e += 1).or_insert(42);
    assert_eq!(*map.index(&"poneyland"), 42);
    map.entry("poneyland").and_modify(|e| *e += 1).or_insert(42);
    assert_eq!(*map.index(&"poneyland"), 43);
}

#[test]
fn and_modify_then_or_insert_hashed() {
    let mut map: HashMap<u64, u32> = HashMap::with_capacity(100);
    assert!(map.is_map());
    map.entry(9).and_modify(|e| *e += 1).or_insert(42);
    assert_eq!(map.get(&9), Some(&42));
    map.entry(9).and_modify(|e| *e += 1).or_insert(42);
    assert_eq!(map.get(&9), Some(&43));
}

#[test]
fn or_insert_keeps_existing() {
    let mut map: HashMap<&str, u32> = HashMap::new();
    map.entry("poneyland").or_insert(3);
    assert_eq!(*map.index(&"poneyland"), 3);
    *map.entry("poneyland").or_insert(10) *= 2;
    assert_eq!(*map.index(&"poneyland"), 6);
}

#[test]
fn or_insert_with_runs_only_when_vacant() {
    let mut map: HashMap<&str, String> = HashMap::new();
    let s = "hoho".to_string();
    map.entry("poneyland").or_insert_with(|| s);
    assert_eq!(*map.index(&"poneyland"), "hoho".to_string());
    let r = map.entry("poneyland").or_insert_with(|| "other".to_string());
    assert_eq!(*r, "hoho".to_string());
}

#[test]
fn entry_key() {
    let mut map: HashMap<&str, u32> = HashMap::new();
    assert_eq!(map.entry("poneyland").key(), &"poneyland");
    map.insert("poneyland", 1);
    assert_eq!(map.entry("poneyland").key(), &"poneyland");
}

#[test]
fn occupied_entry_operations() {
    let mut map: HashMap<&str, u32> = HashMap::new();
    map.entry("poneyland").or_insert(12);
    if let Entry::Occupied(o) = map.entry("poneyland") {
        assert_eq!(o.get(), &12);
    } else {
        panic!("expected an occupied entry");
    }
    if let Entry::Occupied(mut o) = map.entry("poneyland") {
        *o.get_mut() += 10;
        assert_eq!(*o.get(), 22);
        *o.get_mut() += 2;
    }
    assert_eq!(*map.index(&"poneyland"), 24);
    if let Entry::Occupied(mut o) = map.entry("poneyland") {
        assert_eq!(o.insert(15), 24);
    }
    assert_eq!(*map.index(&"poneyland"), 15);
    if let Entry::Occupied(o) = map.entry("poneyland") {
        *o.into_mut() += 10;
    }
    assert_eq!(*map.index(&"poneyland"), 25);
    if let Entry::Occupied(o) = map.entry("poneyland") {
        assert_eq!(o.remove(), 25);
    }
    assert_eq!(map.contains_key(&"poneyland"), false);
}

#[test]
fn occupied_entry_operations_hashed() {
    let mut map: HashMap<u64, u32> = HashMap::with_capacity(100);
    map.insert(5, 12);
    if let Entry::Occupied(mut o) = map.entry(5) {
        assert_eq!(o.key(), &5);
        assert_eq!(o.get(), &12);
        *o.get_mut() += 1;
    } else {
        panic!("expected an occupied entry");
    }
    assert_eq!(map.get(&5), Some(&13));
    if let Entry::Occupied(o) = map.entry(5) {
        assert_eq!(o.remove_entry(), (5, 13));
    }
    assert_eq!(map.get(&5), None);
}

#[test]
fn replace_entry_and_key() {
    let mut map: HashMap<u64, u32> = HashMap::new();
    map.insert(7, 1);
    if let Entry::Occupied(o) = map.entry(7) {
        assert_eq!(o.replace_entry(2), (7, 1));
    }
    assert_eq!(map.get(&7), Some(&2));
    if let Entry::Occupied(o) = map.entry(7) {
        assert_eq!(o.replace_key(), 7);
    }
    assert_eq!(map.get(&7), Some(&2));
}

#[test]
fn vacant_entry_operations() {
    let mut map: HashMap<&str, u32> = HashMap::new();
    if let Entry::Vacant(v) = map.entry("poneyland") {
        assert_eq!(v.key(), &"poneyland");
        v.insert(37);
    }
    assert_eq!(*map.index(&"poneyland"), 37);
    let mut other: HashMap<&str, u32> = HashMap::new();
    if let Entry::Vacant(v) = other.entry("poneyland") {
        assert_eq!(v.into_key(), "poneyland");
    }
    assert!(other.is_empty());
}

#[test]
fn entry_never_migrates() {
    let mut map: HashMap<u64, u64> = HashMap::new();
    for i in 0..40u64 {
        *map.entry(i).or_insert(i) += 1;
    }
    // entry-based insertion grows the linear backend past the threshold
    // without migrating; only `insert` migrates
    assert!(map.is_vec());
    assert_eq!(map.len(), 40);
    assert_eq!(map.get(&39), Some(&40));
}
