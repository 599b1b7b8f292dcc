use ustr::cache::StringCache;
use ustr::handle::Handle;

#[test]
fn intern_same_content_gives_equal_handles() {
    let mut cache = StringCache::new();
    let h1 = cache.intern(b"hello");
    let h2 = cache.intern(b"hello");
    assert_eq!(h1, h2);
    assert_eq!(h1.precomputed_hash(), h2.precomputed_hash());
}

#[test]
fn intern_distinct_content_gives_unequal_handles() {
    let mut cache = StringCache::new();
    let h1 = cache.intern(b"s1");
    let h2 = cache.intern(b"s2");
    assert_ne!(h1, h2);
}

#[test]
fn content_round_trips() {
    let mut cache = StringCache::new();
    let inputs: Vec<&[u8]> = vec![
        b"".as_slice(),
        b"a".as_slice(),
        b"hello world".as_slice(),
        b"\x00\xff\x01".as_slice(),
    ];
    for input in inputs {
        let h = cache.intern(input);
        assert_eq!(h.content(), input);
        assert_eq!(h.length(), input.len());
    }
}

#[test]
fn hash_is_stable_across_caches() {
    let mut cache1 = StringCache::new();
    let mut cache2 = StringCache::new();
    let h1 = cache1.intern(b"stable");
    let h2 = cache2.intern(b"stable");
    assert_eq!(h1.precomputed_hash(), h2.precomputed_hash());
    let h3 = cache1.intern(b"stable");
    assert_eq!(h1.precomputed_hash(), h3.precomputed_hash());
}

#[test]
fn lookup_misses_then_hits() {
    let mut cache = StringCache::new();
    assert!(cache.lookup_existing(b"missing").is_none());
    let h = cache.intern(b"missing");
    let found = cache.lookup_existing(b"missing");
    assert!(found.is_some());
    assert_eq!(found.unwrap(), h);
}

#[test]
fn lookup_does_not_insert() {
    let cache = StringCache::new();
    assert!(cache.lookup_existing(b"probe").is_none());
    assert!(cache.lookup_existing(b"probe").is_none());
    assert_eq!(cache.allocated_bytes(), 0);
}

#[test]
fn sorted_handles_match_sorted_contents() {
    let mut cache = StringCache::new();
    let strings: Vec<&[u8]> = vec![
        b"pear".as_slice(),
        b"apple".as_slice(),
        b"banana".as_slice(),
        b"apple pie".as_slice(),
        b"".as_slice(),
        b"applf".as_slice(),
    ];
    let mut handles: Vec<Handle> = Vec::new();
    for s in &strings {
        handles.push(cache.intern(s));
    }
    handles.sort_by(|a, b| a.partial_cmp(b).unwrap());
    let mut sorted_strings = strings.clone();
    sorted_strings.sort();
    for (h, s) in handles.iter().zip(sorted_strings.iter()) {
        assert_eq!(h.content(), *s);
    }
}

#[test]
fn empty_string_interns_once() {
    let mut cache = StringCache::new();
    let h1 = cache.intern(b"");
    let h2 = cache.intern(b"");
    assert_eq!(h1, h2);
    assert_eq!(h1.length(), 0);
    assert_eq!(h1.content(), b"".as_slice());
}

#[test]
fn abc_orders_before_abd() {
    let mut cache = StringCache::new();
    let h_abc = cache.intern(b"abc");
    let h_abd = cache.intern(b"abd");
    assert_ne!(h_abc, h_abd);
    assert!(h_abc < h_abd);
    let mut handles = vec![h_abd.clone(), h_abc.clone()];
    handles.sort_by(|a, b| a.partial_cmp(b).unwrap());
    assert_eq!(handles[0].content(), b"abc".as_slice());
    assert_eq!(handles[1].content(), b"abd".as_slice());
}

#[test]
fn duplicate_intern_does_not_allocate() {
    let mut cache = StringCache::new();
    cache.intern(b"first");
    let after_first = cache.allocated_bytes();
    assert!(after_first > 0);
    cache.intern(b"first");
    assert_eq!(cache.allocated_bytes(), after_first);
    cache.intern(b"second");
    assert!(cache.allocated_bytes() > after_first);
}

#[test]
fn reset_all_empties_the_cache() {
    let mut cache = StringCache::new();
    cache.intern(b"kept until reset");
    assert!(cache.allocated_bytes() > 0);
    cache.reset_all();
    assert_eq!(cache.allocated_bytes(), 0);
    assert!(cache.lookup_existing(b"kept until reset").is_none());
}

#[test]
fn handles_survive_later_interning() {
    let mut cache = StringCache::new();
    let h1 = cache.intern(b"early");
    for i in 0..200u32 {
        let label = format!("filler-{}", i);
        cache.intern(label.as_bytes());
    }
    let h2 = cache.intern(b"early");
    assert_eq!(h1, h2);
    assert_eq!(h1.content(), b"early".as_slice());
    assert_eq!(cache.lookup_existing(b"early").unwrap(), h1);
}

#[test]
fn many_distinct_strings_stay_distinct() {
    let mut cache = StringCache::new();
    let mut handles: Vec<Handle> = Vec::new();
    for i in 0..100u32 {
        let label = format!("string-{}", i);
        handles.push(cache.intern(label.as_bytes()));
    }
    for i in 0..handles.len() {
        for j in 0..handles.len() {
            if i == j {
                assert_eq!(handles[i], handles[j]);
            } else {
                assert_ne!(handles[i], handles[j]);
            }
        }
    }
    for (i, h) in handles.iter().enumerate() {
        let label = format!("string-{}", i);
        assert_eq!(h.content(), label.as_bytes());
    }
}
