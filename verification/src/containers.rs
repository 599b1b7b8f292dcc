//! Hash containers keyed by handles.
//!
//! `HandleMap` and `HandleSet` bucket their entries by a handle's precomputed
//! hash instead of rehashing string content, so an operation costs container
//! bookkeeping plus constant-time identity comparisons. Keys are handle
//! identities; by the cache's canonicalization invariant, handles for equal
//! content carry equal identities, so these behave as maps and sets of
//! interned strings.

use vstd::prelude::*;
use crate::handle::Handle;

verus! {

/// Number of buckets in a container; fixed, power of two.
pub const BUCKET_COUNT: usize = 64;

/// The identity of a handle, used as a container key: shard, slot, and
/// precomputed hash. Two handles satisfy `same_entry` exactly when their
/// keys are equal.
pub open spec fn handle_key(h: Handle) -> (int, int, int) {
    (h.shard_id() as int, h.entry_index() as int, h.hash_spec() as int)
}

/// The bucket a key is filed under: a slice of its precomputed hash.
pub open spec fn bucket_of_key(k: (int, int, int)) -> int {
    k.2 % (BUCKET_COUNT as int)
}

/// A map from handles to values, bucketed by precomputed hash.
pub struct HandleMap<V> {
    buckets: Vec<Vec<(Handle, V)>>,
    contents: Ghost<Map<(int, int, int), V>>,
}

/// Scans one bucket for a slot whose handle names the same entry as `h`.
fn bucket_find<V>(bucket: &Vec<(Handle, V)>, h: &Handle) -> (r: Option<usize>)
    ensures
        match r {
            Some(i) => 0 <= i < bucket@.len() && bucket@[i as int].0.same_entry(*h),
            None => forall|j: int| 0 <= j < bucket@.len() ==> !bucket@[j].0.same_entry(*h),
        },
{
    let mut i: usize = 0;
    while i < bucket.len()
        invariant
            0 <= i <= bucket@.len(),
            forall|j: int| 0 <= j < i ==> !bucket@[j].0.same_entry(*h),
        decreases bucket@.len() - i,
    {
        let slot = &bucket[i];
        if slot.0 == *h {
            return Some(i);
        }
        i = i + 1;
    }
    None
}

impl<V> HandleMap<V> {
    /// Well-formedness: the fixed bucket array, every slot filed under its
    /// key's bucket, no key twice in a bucket, and the slots in exact
    /// correspondence with the abstract map.
    pub closed spec fn wf(self) -> bool {
        &&& self.buckets@.len() == BUCKET_COUNT as int
        &&& forall|b: int, i: int|
            0 <= b < BUCKET_COUNT as int && 0 <= i < self.buckets@[b]@.len() ==> bucket_of_key(
                handle_key(#[trigger] self.buckets@[b]@[i].0),
            ) == b
        &&& forall|b: int, i: int|
            0 <= b < BUCKET_COUNT as int && 0 <= i < self.buckets@[b]@.len() ==> {
                &&& self.contents@.contains_key(handle_key(#[trigger] self.buckets@[b]@[i].0))
                &&& self.contents@[handle_key(self.buckets@[b]@[i].0)] == self.buckets@[b]@[i].1
            }
        &&& forall|b: int, i: int, j: int|
            0 <= b < BUCKET_COUNT as int && 0 <= i < j < self.buckets@[b]@.len()
                ==> handle_key(self.buckets@[b]@[i].0) != handle_key(self.buckets@[b]@[j].0)
        &&& forall|k: (int, int, int)|
            #[trigger] self.contents@.contains_key(k) ==> exists|i: int|
                0 <= i < self.buckets@[bucket_of_key(k)]@.len() && handle_key(
                    #[trigger] self.buckets@[bucket_of_key(k)]@[i].0,
                ) == k
    }

    /// Creates an empty map.
    pub fn new() -> (m: HandleMap<V>)
        ensures
            m.wf(),
            m@ == Map::<(int, int, int), V>::empty(),
    {
        let mut buckets: Vec<Vec<(Handle, V)>> = Vec::new();
        let mut b: usize = 0;
        while b < BUCKET_COUNT
            invariant
                0 <= b <= BUCKET_COUNT,
                buckets@.len() == b,
                forall|k: int| 0 <= k < b ==> (#[trigger] buckets@[k])@.len() == 0,
            decreases BUCKET_COUNT - b,
        {
            buckets.push(Vec::new());
            b = b + 1;
        }
        let m = HandleMap { buckets, contents: Ghost(Map::empty()) };
        proof {
            assert(m.wf());
        }
        m
    }

    /// Inserts `v` under the handle `h`, replacing any value stored for the
    /// same entry.
    pub fn insert(&mut self, h: Handle, v: V)
        requires
            old(self).wf(),
        ensures
            final(self).wf(),
            final(self)@ == old(self)@.insert(handle_key(h), v),
    {
        let b = (h.precomputed_hash() % (BUCKET_COUNT as u64)) as usize;
        let ghost key = handle_key(h);
        proof {
            assert(b as int == bucket_of_key(key));
        }
        let ghost prev = *self;
        let bucket = vstd::std_specs::vec::vec_index_mut(&mut self.buckets, b);
        let found = bucket_find(&*bucket, &h);
        match found {
            Some(i) => {
                let slot = vstd::std_specs::vec::vec_index_mut(bucket, i);
                slot.1 = v;
            },
            None => {
                bucket.push((h, v));
            },
        }
        self.contents = Ghost(self.contents@.insert(key, v));
        proof {
            self.lemma_insert_wf(prev, key, v, b as int, found);
        }
    }

    /// The well-formedness bookkeeping behind `insert`: the new state is the
    /// old one with exactly one slot updated or appended in the key's bucket.
    proof fn lemma_insert_wf(
        self,
        prev: HandleMap<V>,
        key: (int, int, int),
        v: V,
        b: int,
        found: Option<usize>,
    )
        requires
            prev.wf(),
            b == bucket_of_key(key),
            0 <= b < BUCKET_COUNT as int,
            self.contents@ == prev.contents@.insert(key, v),
            self.buckets@.len() == prev.buckets@.len(),
            forall|k: int|
                0 <= k < BUCKET_COUNT as int && k != b ==> self.buckets@[k] == prev.buckets@[k],
            match found {
                Some(i) => {
                    &&& 0 <= i < prev.buckets@[b]@.len()
                    &&& handle_key(prev.buckets@[b]@[i as int].0) == key
                    &&& self.buckets@[b]@ == prev.buckets@[b]@.update(
                        i as int,
                        (prev.buckets@[b]@[i as int].0, v),
                    )
                },
                None => {
                    &&& forall|j: int|
                        0 <= j < prev.buckets@[b]@.len() ==> handle_key(prev.buckets@[b]@[j].0)
                            != key
                    &&& exists|hh: Handle|
                        handle_key(hh) == key && self.buckets@[b]@ == prev.buckets@[b]@.push(
                            (hh, v),
                        )
                },
            },
        ensures
            self.wf(),
    {
        assert forall|bb: int, i: int|
            0 <= bb < BUCKET_COUNT as int && 0 <= i < self.buckets@[bb]@.len() implies {
            &&& bucket_of_key(handle_key(#[trigger] self.buckets@[bb]@[i].0)) == bb
            &&& self.contents@.contains_key(handle_key(self.buckets@[bb]@[i].0))
            &&& self.contents@[handle_key(self.buckets@[bb]@[i].0)] == self.buckets@[bb]@[i].1
        } by {
            if bb != b {
                assert(self.buckets@[bb] == prev.buckets@[bb]);
                assert(bucket_of_key(handle_key(prev.buckets@[bb]@[i].0)) == bb);
                assert(handle_key(prev.buckets@[bb]@[i].0) != key);
            } else {
                match found {
                    Some(fi) => {
                        if i != fi as int {
                            assert(self.buckets@[b]@[i] == prev.buckets@[b]@[i]);
                            assert(bucket_of_key(handle_key(prev.buckets@[b]@[i].0)) == b);
                            assert(handle_key(prev.buckets@[b]@[i].0) != key);
                        }
                    },
                    None => {
                        if i < prev.buckets@[b]@.len() {
                            assert(self.buckets@[b]@[i] == prev.buckets@[b]@[i]);
                            assert(bucket_of_key(handle_key(prev.buckets@[b]@[i].0)) == b);
                        }
                    },
                }
            }
        }
        assert forall|bb: int, i: int, j: int|
            0 <= bb < BUCKET_COUNT as int && 0 <= i < j < self.buckets@[bb]@.len() implies
            handle_key(self.buckets@[bb]@[i].0) != handle_key(self.buckets@[bb]@[j].0) by {
            if bb != b {
                assert(self.buckets@[bb] == prev.buckets@[bb]);
            } else {
                match found {
                    Some(fi) => {
                        assert(handle_key(self.buckets@[b]@[i].0) == handle_key(
                            prev.buckets@[b]@[i].0,
                        ));
                        assert(handle_key(self.buckets@[b]@[j].0) == handle_key(
                            prev.buckets@[b]@[j].0,
                        ));
                    },
                    None => {
                        if j < prev.buckets@[b]@.len() {
                        } else {
                            assert(self.buckets@[b]@[i] == prev.buckets@[b]@[i]);
                            assert(handle_key(self.buckets@[b]@[j].0) == key);
                        }
                    },
                }
            }
        }
        assert forall|k: (int, int, int)| #[trigger]
            self.contents@.contains_key(k) implies exists|i: int|
            0 <= i < self.buckets@[bucket_of_key(k)]@.len() && handle_key(
                #[trigger] self.buckets@[bucket_of_key(k)]@[i].0,
            ) == k by {
            if k == key {
                match found {
                    Some(fi) => {
                        assert(handle_key(self.buckets@[b]@[fi as int].0) == k);
                    },
                    None => {
                        let last = self.buckets@[b]@.len() - 1;
                        assert(handle_key(self.buckets@[b]@[last].0) == k);
                    },
                }
            } else {
                assert(prev.contents@.contains_key(k));
                let i = choose|i: int|
                    0 <= i < prev.buckets@[bucket_of_key(k)]@.len() && handle_key(
                        prev.buckets@[bucket_of_key(k)]@[i].0,
                    ) == k;
                if bucket_of_key(k) != b {
                    assert(self.buckets@[bucket_of_key(k)] == prev.buckets@[bucket_of_key(k)]);
                    assert(handle_key(self.buckets@[bucket_of_key(k)]@[i].0) == k);
                } else {
                    match found {
                        Some(fi) => {
                            assert(handle_key(self.buckets@[b]@[i].0) == handle_key(
                                prev.buckets@[b]@[i].0,
                            ));
                        },
                        None => {
                            assert(self.buckets@[b]@[i] == prev.buckets@[b]@[i]);
                        },
                    }
                    assert(handle_key(self.buckets@[bucket_of_key(k)]@[i].0) == k);
                }
            }
        }
    }

    /// Removes any value stored for the entry `h` names.
    pub fn remove(&mut self, h: &Handle)
        requires
            old(self).wf(),
        ensures
            final(self).wf(),
            final(self)@ == old(self)@.remove(handle_key(*h)),
    {
        let b = (h.precomputed_hash() % (BUCKET_COUNT as u64)) as usize;
        let ghost key = handle_key(*h);
        proof {
            assert(b as int == bucket_of_key(key));
        }
        let ghost prev = *self;
        let bucket = vstd::std_specs::vec::vec_index_mut(&mut self.buckets, b);
        let found = bucket_find(&*bucket, h);
        match found {
            Some(i) => {
                let _removed = bucket.swap_remove(i);
            },
            None => {},
        }
        self.contents = Ghost(self.contents@.remove(key));
        proof {
            match found {
                Some(_) => {},
                None => {
                    assert(self.buckets@[b as int] == prev.buckets@[b as int]);
                },
            }
            self.lemma_remove_wf(prev, key, b as int, found);
        }
    }

    /// The well-formedness bookkeeping behind `remove`: at most one slot, in
    /// the key's bucket, leaves; the slot that replaces it comes from the end
    /// of the same bucket.
    proof fn lemma_remove_wf(
        self,
        prev: HandleMap<V>,
        key: (int, int, int),
        b: int,
        found: Option<usize>,
    )
        requires
            prev.wf(),
            b == bucket_of_key(key),
            0 <= b < BUCKET_COUNT as int,
            self.contents@ == prev.contents@.remove(key),
            self.buckets@.len() == prev.buckets@.len(),
            forall|k: int|
                0 <= k < BUCKET_COUNT as int && k != b ==> self.buckets@[k] == prev.buckets@[k],
            match found {
                Some(i) => {
                    &&& 0 <= i < prev.buckets@[b]@.len()
                    &&& handle_key(prev.buckets@[b]@[i as int].0) == key
                    &&& self.buckets@[b]@ == prev.buckets@[b]@.update(
                        i as int,
                        prev.buckets@[b]@.last(),
                    ).drop_last()
                },
                None => {
                    &&& forall|j: int|
                        0 <= j < prev.buckets@[b]@.len() ==> handle_key(prev.buckets@[b]@[j].0)
                            != key
                    &&& self.buckets@[b] == prev.buckets@[b]
                },
            },
        ensures
            self.wf(),
    {
        let m = prev.buckets@[b]@.len();
        match found {
            Some(fi0) => {
                let fi = fi0 as int;
                assert(self.buckets@[b]@.len() == m - 1);
                assert forall|j: int| 0 <= j < m - 1 implies handle_key(
                    #[trigger] self.buckets@[b]@[j].0,
                ) != key by {
                    if j == fi {
                        if fi != m - 1 {
                            assert(handle_key(prev.buckets@[b]@[m - 1].0) != handle_key(
                                prev.buckets@[b]@[fi].0,
                            ));
                        }
                    }
                }
            },
            None => {
                assert(!prev.contents@.contains_key(key)) by {
                    if prev.contents@.contains_key(key) {
                        let i = choose|i: int|
                            0 <= i < prev.buckets@[bucket_of_key(key)]@.len() && handle_key(
                                prev.buckets@[bucket_of_key(key)]@[i].0,
                            ) == key;
                        assert(handle_key(prev.buckets@[b]@[i].0) == key);
                    }
                }
            },
        }
        assert forall|bb: int, i: int|
            0 <= bb < BUCKET_COUNT as int && 0 <= i < self.buckets@[bb]@.len() implies {
            &&& bucket_of_key(handle_key(#[trigger] self.buckets@[bb]@[i].0)) == bb
            &&& self.contents@.contains_key(handle_key(self.buckets@[bb]@[i].0))
            &&& self.contents@[handle_key(self.buckets@[bb]@[i].0)] == self.buckets@[bb]@[i].1
        } by {
            if bb != b {
                assert(self.buckets@[bb] == prev.buckets@[bb]);
                assert(bucket_of_key(handle_key(prev.buckets@[bb]@[i].0)) == bb);
                assert(handle_key(prev.buckets@[bb]@[i].0) != key);
            } else {
                match found {
                    Some(fi) => {
                        let src: int = if i == fi as int {
                            m - 1
                        } else {
                            i
                        };
                        assert(self.buckets@[b]@[i] == prev.buckets@[b]@[src]);
                        assert(bucket_of_key(handle_key(prev.buckets@[b]@[src].0)) == b);
                        assert(handle_key(self.buckets@[b]@[i].0) != key);
                    },
                    None => {
                        assert(self.buckets@[b]@[i] == prev.buckets@[b]@[i]);
                        assert(bucket_of_key(handle_key(prev.buckets@[b]@[i].0)) == b);
                        assert(handle_key(prev.buckets@[b]@[i].0) != key);
                    },
                }
            }
        }
        assert forall|bb: int, i: int, j: int|
            0 <= bb < BUCKET_COUNT as int && 0 <= i < j < self.buckets@[bb]@.len() implies
            handle_key(self.buckets@[bb]@[i].0) != handle_key(self.buckets@[bb]@[j].0) by {
            if bb != b {
                assert(self.buckets@[bb] == prev.buckets@[bb]);
            } else {
                match found {
                    Some(fi) => {
                        let src_i: int = if i == fi as int {
                            m - 1
                        } else {
                            i
                        };
                        let src_j: int = if j == fi as int {
                            m - 1
                        } else {
                            j
                        };
                        assert(self.buckets@[b]@[i] == prev.buckets@[b]@[src_i]);
                        assert(self.buckets@[b]@[j] == prev.buckets@[b]@[src_j]);
                        assert(src_i != src_j);
                    },
                    None => {
                        assert(self.buckets@[bb]@[i] == prev.buckets@[bb]@[i]);
                        assert(self.buckets@[bb]@[j] == prev.buckets@[bb]@[j]);
                    },
                }
            }
        }
        assert forall|k: (int, int, int)| #[trigger]
            self.contents@.contains_key(k) implies exists|i: int|
            0 <= i < self.buckets@[bucket_of_key(k)]@.len() && handle_key(
                #[trigger] self.buckets@[bucket_of_key(k)]@[i].0,
            ) == k by {
            assert(prev.contents@.contains_key(k));
            assert(k != key);
            let i = choose|i: int|
                0 <= i < prev.buckets@[bucket_of_key(k)]@.len() && handle_key(
                    prev.buckets@[bucket_of_key(k)]@[i].0,
                ) == k;
            if bucket_of_key(k) != b {
                assert(self.buckets@[bucket_of_key(k)] == prev.buckets@[bucket_of_key(k)]);
                assert(handle_key(self.buckets@[bucket_of_key(k)]@[i].0) == k);
            } else {
                match found {
                    Some(fi) => {
                        if i < m - 1 && i != fi as int {
                            assert(self.buckets@[b]@[i] == prev.buckets@[b]@[i]);
                            assert(handle_key(self.buckets@[b]@[i].0) == k);
                        } else {
                            assert(i == m - 1);
                            assert(fi as int != m - 1) by {
                                if fi as int == m - 1 {
                                    assert(handle_key(prev.buckets@[b]@[fi as int].0) == key);
                                }
                            }
                            assert(self.buckets@[b]@[fi as int] == prev.buckets@[b]@[m - 1]);
                            assert(handle_key(self.buckets@[b]@[fi as int].0) == k);
                        }
                    },
                    None => {
                        assert(self.buckets@[b]@[i] == prev.buckets@[b]@[i]);
                        assert(handle_key(self.buckets@[b]@[i].0) == k);
                    },
                }
            }
        }
    }

    /// Looks up the value stored for the entry `h` names, if any.
    pub fn get(&self, h: &Handle) -> (r: Option<&V>)
        requires
            self.wf(),
        ensures
            match r {
                Some(v) => self@.contains_key(handle_key(*h)) && *v == self@[handle_key(*h)],
                None => !self@.contains_key(handle_key(*h)),
            },
    {
        let b = (h.precomputed_hash() % (BUCKET_COUNT as u64)) as usize;
        proof {
            assert(b as int == bucket_of_key(handle_key(*h)));
        }
        let bucket = &self.buckets[b];
        let found = bucket_find(bucket, h);
        match found {
            Some(i) => Some(&bucket[i].1),
            None => {
                proof {
                    if self@.contains_key(handle_key(*h)) {
                        let i = choose|i: int|
                            0 <= i < bucket@.len() && handle_key(bucket@[i].0) == handle_key(*h);
                        assert(bucket@[i].0.same_entry(*h));
                    }
                }
                None
            },
        }
    }

    /// Whether a value is stored for the entry `h` names.
    pub fn contains_key(&self, h: &Handle) -> (r: bool)
        requires
            self.wf(),
        ensures
            r == self@.contains_key(handle_key(*h)),
    {
        let found = self.get(h);
        match found {
            Some(_) => true,
            None => false,
        }
    }
}

impl<V> View for HandleMap<V> {
    type V = Map<(int, int, int), V>;

    /// A handle map is viewed as a map from handle identities to values.
    closed spec fn view(&self) -> Map<(int, int, int), V> {
        self.contents@
    }
}

/// A set of handles, bucketed by precomputed hash.
pub struct HandleSet {
    map: HandleMap<u8>,
}

impl HandleSet {
    /// Well-formedness of the underlying map.
    pub closed spec fn wf(self) -> bool {
        self.map.wf()
    }

    /// Creates an empty set.
    pub fn new() -> (s: HandleSet)
        ensures
            s.wf(),
            s@ == Set::<(int, int, int)>::empty(),
    {
        let s = HandleSet { map: HandleMap::new() };
        proof {
            assert(s@ =~= Set::<(int, int, int)>::empty());
        }
        s
    }

    /// Inserts the entry `h` names.
    pub fn insert(&mut self, h: Handle)
        requires
            old(self).wf(),
        ensures
            final(self).wf(),
            final(self)@ == old(self)@.insert(handle_key(h)),
    {
        let ghost key = handle_key(h);
        self.map.insert(h, 0u8);
        proof {
            assert(self@ =~= old(self)@.insert(key));
        }
    }

    /// Whether the entry `h` names is in the set.
    pub fn contains(&self, h: &Handle) -> (r: bool)
        requires
            self.wf(),
        ensures
            r == self@.contains(handle_key(*h)),
    {
        self.map.contains_key(h)
    }

    /// Removes the entry `h` names, if present.
    pub fn remove(&mut self, h: &Handle)
        requires
            old(self).wf(),
        ensures
            final(self).wf(),
            final(self)@ == old(self)@.remove(handle_key(*h)),
    {
        let ghost key = handle_key(*h);
        self.map.remove(h);
        proof {
            assert(self@ =~= old(self)@.remove(key));
        }
    }
}

impl View for HandleSet {
    type V = Set<(int, int, int)>;

    /// A handle set is viewed as the set of handle identities it holds.
    closed spec fn view(&self) -> Set<(int, int, int)> {
        self.map@.dom()
    }
}

} // verus!
