use ustr::cache::StringCache;
use ustr::containers::{HandleMap, HandleSet};

#[test]
fn map_insert_and_get() {
    let mut cache = StringCache::new();
    let k1 = cache.intern(b"one");
    let k2 = cache.intern(b"two");
    let k3 = cache.intern(b"three");
    let mut map: HandleMap<u32> = HandleMap::new();
    assert!(map.get(&k1).is_none());
    map.insert(k1.clone(), 1);
    map.insert(k2.clone(), 2);
    assert_eq!(map.get(&k1), Some(&1));
    assert_eq!(map.get(&k2), Some(&2));
    assert!(map.get(&k3).is_none());
    assert!(map.contains_key(&k1));
    assert!(!map.contains_key(&k3));
}

#[test]
fn map_insert_replaces_value_for_equal_handles() {
    let mut cache = StringCache::new();
    let k1 = cache.intern(b"key");
    let k2 = cache.intern(b"key");
    let mut map: HandleMap<&str> = HandleMap::new();
    map.insert(k1.clone(), "first");
    map.insert(k2.clone(), "second");
    assert_eq!(map.get(&k1), Some(&"second"));
    assert_eq!(map.get(&k2), Some(&"second"));
}

#[test]
fn map_keys_use_the_precomputed_hash_identity() {
    let mut cache = StringCache::new();
    let mut map: HandleMap<usize> = HandleMap::new();
    let mut handles = Vec::new();
    for i in 0..150usize {
        let label = format!("key-{}", i);
        let h = cache.intern(label.as_bytes());
        map.insert(h.clone(), i);
        handles.push(h);
    }
    for (i, h) in handles.iter().enumerate() {
        assert_eq!(map.get(h), Some(&i));
        let again = cache.intern(format!("key-{}", i).as_bytes());
        assert_eq!(map.get(&again), Some(&i));
    }
}

#[test]
fn set_insert_and_contains() {
    let mut cache = StringCache::new();
    let a = cache.intern(b"alpha");
    let b = cache.intern(b"beta");
    let c = cache.intern(b"gamma");
    let mut set = HandleSet::new();
    assert!(!set.contains(&a));
    set.insert(a.clone());
    set.insert(b.clone());
    assert!(set.contains(&a));
    assert!(set.contains(&b));
    assert!(!set.contains(&c));
    let a_again = cache.intern(b"alpha");
    assert!(set.contains(&a_again));
}

#[test]
fn map_remove_deletes_only_its_key() {
    let mut cache = StringCache::new();
    let k1 = cache.intern(b"kept");
    let k2 = cache.intern(b"dropped");
    let mut map: HandleMap<u32> = HandleMap::new();
    map.insert(k1.clone(), 10);
    map.insert(k2.clone(), 20);
    map.remove(&k2);
    assert_eq!(map.get(&k1), Some(&10));
    assert!(map.get(&k2).is_none());
    map.remove(&k2);
    assert!(map.get(&k2).is_none());
    assert_eq!(map.get(&k1), Some(&10));
}

#[test]
fn set_remove_deletes_membership() {
    let mut cache = StringCache::new();
    let a = cache.intern(b"in");
    let b = cache.intern(b"out");
    let mut set = HandleSet::new();
    set.insert(a.clone());
    set.insert(b.clone());
    set.remove(&b);
    assert!(set.contains(&a));
    assert!(!set.contains(&b));
}

#[test]
fn set_insert_is_idempotent() {
    let mut cache = StringCache::new();
    let h = cache.intern(b"only once");
    let mut set = HandleSet::new();
    set.insert(h.clone());
    set.insert(h.clone());
    assert!(set.contains(&h));
}
