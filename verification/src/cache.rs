//! The interning cache: entries, shards, and the cache built from them.
//!
//! A `StringCache` is a fixed, power-of-two array of `Shard`s. Every byte
//! string is routed by its FNV-1a hash to exactly one shard, which keeps an
//! index of the entries it has created and a leaking arena that backs them.
//! A given byte string therefore has at most one entry in the whole cache,
//! and the handles minted for it all name that entry.

use vstd::prelude::*;
use vstd::std_specs::cmp::PartialEqSpec;
use crate::bumpalloc::{sat_add_usize, LeakyBumpAlloc};
use crate::bytestr::{bytes_eq, copy_bytes};
use crate::handle::Handle;
use crate::hashing::{fnv1a, fnv1a_spec};

verus! {

/// Number of shards in a cache; fixed for the cache's whole life.
pub const NUM_SHARDS: usize = 16;

/// Bytes of bookkeeping charged to the arena per entry, beside the payload:
/// the stored hash, the stored length, and a trailing terminator byte.
pub const ENTRY_OVERHEAD: usize = 17;

/// Advisory initial arena capacity of each shard, in bytes.
pub const SHARD_ARENA_CAPACITY: usize = 4096;

/// Alignment entries are laid out with inside the arena.
pub const ENTRY_ALIGNMENT: usize = 8;

/// The shard a byte string is routed to: a fixed slice of its hash bits.
pub open spec fn shard_of(s: Seq<u8>) -> int {
    fnv1a_spec(s) as int % (NUM_SHARDS as int)
}

/// Arena bytes one entry costs: its payload plus the fixed overhead.
pub open spec fn entry_cost(len: nat) -> usize {
    if len + ENTRY_OVERHEAD <= usize::MAX {
        (len + ENTRY_OVERHEAD) as usize
    } else {
        usize::MAX
    }
}

/// The canonical record for one unique string: its precomputed hash and its
/// bytes. Immutable once created.
pub struct CacheEntry {
    hash: u64,
    bytes: Vec<u8>,
}

/// One independently usable partition of the cache: an index of entries plus
/// the arena that backs them.
pub struct Shard {
    id: usize,
    alloc: LeakyBumpAlloc,
    entries: Vec<CacheEntry>,
}

impl Shard {
    /// Which slot of the cache this shard is.
    pub closed spec fn id_spec(self) -> usize {
        self.id
    }

    /// How many entries this shard holds.
    pub closed spec fn num_entries(self) -> int {
        self.entries@.len() as int
    }

    /// The content of the entry in slot `i`.
    pub closed spec fn entry_at(self, i: int) -> Seq<u8> {
        self.entries@[i].bytes@
    }

    /// The stored hash of the entry in slot `i`.
    pub closed spec fn hash_at(self, i: int) -> u64 {
        self.entries@[i].hash
    }

    /// This shard's allocator.
    pub closed spec fn alloc_spec(self) -> LeakyBumpAlloc {
        self.alloc
    }

    /// Well-formedness: stored hashes are the hashes of the stored bytes,
    /// every entry is routed here, and no two entries hold the same string.
    pub open spec fn wf(self) -> bool {
        &&& forall|i: int|
            0 <= i < self.num_entries() ==> #[trigger] self.hash_at(i) == fnv1a_spec(
                self.entry_at(i),
            )
        &&& forall|i: int|
            0 <= i < self.num_entries() ==> shard_of(#[trigger] self.entry_at(i))
                == self.id_spec() as int
        &&& forall|i: int, j: int|
            0 <= i < j < self.num_entries() ==> self.entry_at(i) != self.entry_at(j)
    }

    /// Whether this shard holds an entry for `s`.
    pub open spec fn has(self, s: Seq<u8>) -> bool {
        exists|i: int| 0 <= i < self.num_entries() && self.entry_at(i) == s
    }

    /// The slot of the entry for `s`; meaningful when `has(s)`.
    pub closed spec fn index_of(self, s: Seq<u8>) -> int {
        choose|i: int| 0 <= i < self.num_entries() && self.entry_at(i) == s
    }

    /// When the shard holds `s`, `index_of(s)` is a real slot holding `s`.
    pub proof fn lemma_index_of(self, s: Seq<u8>)
        requires
            self.has(s),
        ensures
            0 <= self.index_of(s) < self.num_entries(),
            self.entry_at(self.index_of(s)) == s,
    {
    }

    /// In a well-formed shard, the slot holding `s` is unique, so any slot
    /// that holds `s` is `index_of(s)`.
    pub proof fn lemma_index_unique(self, s: Seq<u8>, i: int)
        requires
            self.wf(),
            0 <= i < self.num_entries(),
            self.entry_at(i) == s,
        ensures
            self.has(s),
            i == self.index_of(s),
    {
        assert(self.has(s));
        self.lemma_index_of(s);
    }

    /// Creates the empty shard in slot `id`.
    pub fn new(id: usize) -> (s: Shard)
        ensures
            s.wf(),
            s.id_spec() == id,
            s.num_entries() == 0,
            s.alloc_spec().allocated_spec() == 0,
    {
        Shard {
            id,
            alloc: LeakyBumpAlloc::new(SHARD_ARENA_CAPACITY, ENTRY_ALIGNMENT),
            entries: Vec::new(),
        }
    }

    /// Probes the index for `bytes` without inserting: candidate slots are
    /// rejected on a hash mismatch and confirmed byte for byte, so a hash
    /// collision never causes a false positive. No allocation, no mutation.
    pub fn find(&self, bytes: &[u8], hash: u64) -> (r: Option<Handle>)
        requires
            self.wf(),
            hash == fnv1a_spec(bytes@),
        ensures
            match r {
                Some(h) => {
                    &&& self.has(bytes@)
                    &&& h@ == bytes@
                    &&& h.shard_id() == self.id_spec()
                    &&& h.entry_index() as int == self.index_of(bytes@)
                    &&& h.hash_spec() == hash
                },
                None => !self.has(bytes@),
            },
    {
        let mut i: usize = 0;
        while i < self.entries.len()
            invariant
                self.wf(),
                hash == fnv1a_spec(bytes@),
                0 <= i <= self.num_entries(),
                forall|j: int| 0 <= j < i ==> self.entry_at(j) != bytes@,
            decreases self.num_entries() - i,
        {
            let entry_hash = self.entries[i].hash;
            if entry_hash == hash {
                if bytes_eq(self.entries[i].bytes.as_slice(), bytes) {
                    proof {
                        self.lemma_index_unique(bytes@, i as int);
                    }
                    return Some(Handle::mint(self.id, i, hash, copy_bytes(bytes)));
                }
            } else {
                proof {
                    assert(self.hash_at(i as int) == fnv1a_spec(self.entry_at(i as int)));
                    assert(self.entry_at(i as int) != bytes@);
                }
            }
            i = i + 1;
        }
        proof {
            assert(!self.has(bytes@));
        }
        None
    }

    /// Finds the entry for `bytes`, creating it on a miss: the miss path
    /// charges the entry's cost to the arena, stores the canonical copy, and
    /// appends it to the index. Either way the returned handle names the one
    /// entry this shard holds for `bytes`.
    pub fn find_or_insert(&mut self, bytes: &[u8], hash: u64) -> (h: Handle)
        requires
            old(self).wf(),
            hash == fnv1a_spec(bytes@),
            shard_of(bytes@) == old(self).id_spec() as int,
        ensures
            final(self).wf(),
            final(self).id_spec() == old(self).id_spec(),
            final(self).has(bytes@),
            h@ == bytes@,
            h.shard_id() == final(self).id_spec(),
            h.hash_spec() == hash,
            h.entry_index() as int == final(self).index_of(bytes@),
            forall|s: Seq<u8>|
                final(self).has(s) <==> old(self).has(s) || s == bytes@,
            forall|s: Seq<u8>|
                old(self).has(s) ==> final(self).index_of(s) == old(self).index_of(s),
            old(self).has(bytes@) ==> *final(self) == *old(self),
            !old(self).has(bytes@) ==> {
                &&& final(self).num_entries() == old(self).num_entries() + 1
                &&& final(self).alloc_spec().allocated_spec() == sat_add_usize(
                    old(self).alloc_spec().allocated_spec(),
                    entry_cost(bytes@.len()),
                )
            },
    {
        let found = self.find(bytes, hash);
        match found {
            Some(h) => h,
            None => {
                let idx = self.entries.len();
                let cost: usize = if bytes.len() <= usize::MAX - ENTRY_OVERHEAD {
                    bytes.len() + ENTRY_OVERHEAD
                } else {
                    usize::MAX
                };
                proof {
                    assert(cost == entry_cost(bytes@.len()));
                }
                let _offset = self.alloc.allocate(cost);
                let entry = CacheEntry { hash, bytes: copy_bytes(bytes) };
                self.entries.push(entry);
                let h = Handle::mint(self.id, idx, hash, copy_bytes(bytes));
                proof {
                    let n = old(self).num_entries();
                    assert(self.num_entries() == n + 1);
                    assert(self.entry_at(n) == bytes@);
                    assert forall|i: int| 0 <= i < n implies self.entry_at(i) == old(
                        self,
                    ).entry_at(i) && self.hash_at(i) == old(self).hash_at(i) by {
                        assert(self.entries@[i] == old(self).entries@[i]);
                    }
                    assert forall|i: int| 0 <= i < n implies self.entry_at(i) != bytes@ by {
                        if self.entry_at(i) == bytes@ {
                            assert(old(self).has(bytes@));
                        }
                    }
                    assert(self.wf());
                    self.lemma_index_unique(bytes@, n);
                    assert forall|s: Seq<u8>| old(self).has(s) implies self.has(s)
                        && self.index_of(s) == old(self).index_of(s) by {
                        old(self).lemma_index_of(s);
                        let i = old(self).index_of(s);
                        assert(self.entry_at(i) == s);
                        self.lemma_index_unique(s, i);
                        old(self).lemma_index_unique(s, i);
                    }
                    assert forall|s: Seq<u8>| self.has(s) implies old(self).has(s) || s
                        == bytes@ by {
                        self.lemma_index_of(s);
                        let i = self.index_of(s);
                        if i < n {
                            assert(old(self).entry_at(i) == s);
                            assert(old(self).has(s));
                        }
                    }
                }
                h
            },
        }
    }

    /// Discards every entry and all arena memory, for test or benchmark
    /// isolation only: handles minted from this shard beforehand must no
    /// longer be used.
    pub fn reset(&mut self)
        ensures
            final(self).wf(),
            final(self).id_spec() == old(self).id_spec(),
            final(self).num_entries() == 0,
            final(self).alloc_spec().allocated_spec() == 0,
    {
        self.entries.clear();
        self.alloc.clear();
    }

    /// The monotonic count of arena bytes this shard has handed out.
    pub fn allocated(&self) -> (r: usize)
        ensures
            r == self.alloc_spec().allocated_spec(),
    {
        self.alloc.allocated()
    }
}

/// The interning cache: a fixed array of shards, each routed to by a fixed
/// slice of the content hash.
pub struct StringCache {
    shards: Vec<Shard>,
}

impl StringCache {
    /// The shard in slot `j`.
    pub closed spec fn shard_at(self, j: int) -> Shard {
        self.shards@[j]
    }

    /// How many shards the cache holds.
    pub closed spec fn num_shards(self) -> int {
        self.shards@.len() as int
    }

    /// Well-formedness: exactly `NUM_SHARDS` shards, each well-formed and
    /// sitting in the slot its entries are routed to.
    pub open spec fn wf(self) -> bool {
        &&& self.num_shards() == NUM_SHARDS as int
        &&& forall|j: int| 0 <= j < NUM_SHARDS as int ==> (#[trigger] self.shard_at(j)).wf()
        &&& forall|j: int|
            0 <= j < NUM_SHARDS as int ==> (#[trigger] self.shard_at(j)).id_spec() as int == j
    }

    /// Whether `s` has been interned: only its own shard can hold it.
    pub open spec fn contains_str(self, s: Seq<u8>) -> bool {
        self.shard_at(shard_of(s)).has(s)
    }

    /// The slot, within its shard, of the entry for `s`.
    pub open spec fn index_of(self, s: Seq<u8>) -> int {
        self.shard_at(shard_of(s)).index_of(s)
    }

    /// A handle is valid for this cache when it names the one entry the
    /// cache holds for its content, and carries that content's hash.
    pub open spec fn valid_handle(self, h: Handle) -> bool {
        &&& self.contains_str(h@)
        &&& h.shard_id() as int == shard_of(h@)
        &&& h.entry_index() as int == self.index_of(h@)
        &&& h.hash_spec() == fnv1a_spec(h@)
    }

    /// Arena bytes handed out by shards `0..j`, saturating at `usize::MAX`.
    pub closed spec fn allocated_below(self, j: int) -> usize
        decreases j,
    {
        if j <= 0 {
            0
        } else {
            sat_add_usize(
                self.allocated_below(j - 1),
                self.shard_at(j - 1).alloc_spec().allocated_spec(),
            )
        }
    }

    /// Arena bytes handed out by the whole cache.
    pub open spec fn allocated_spec(self) -> usize {
        self.allocated_below(NUM_SHARDS as int)
    }

    proof fn lemma_allocated_congruent(self, other: StringCache, j: int)
        requires
            forall|k: int|
                0 <= k < j ==> (#[trigger] self.shard_at(k)).alloc_spec().allocated_spec()
                    == other.shard_at(k).alloc_spec().allocated_spec(),
        ensures
            self.allocated_below(j) == other.allocated_below(j),
        decreases j,
    {
        if j > 0 {
            self.lemma_allocated_congruent(other, j - 1);
        }
    }

    proof fn lemma_allocated_zero(self, j: int)
        requires
            forall|k: int|
                0 <= k < j ==> (#[trigger] self.shard_at(k)).alloc_spec().allocated_spec() == 0,
        ensures
            self.allocated_below(j) == 0,
        decreases j,
    {
        if j > 0 {
            self.lemma_allocated_zero(j - 1);
        }
    }

    /// Creates an empty cache with its fixed array of shards.
    pub fn new() -> (c: StringCache)
        ensures
            c.wf(),
            forall|s: Seq<u8>| !c.contains_str(s),
            c.allocated_spec() == 0,
    {
        let mut shards: Vec<Shard> = Vec::new();
        let mut j: usize = 0;
        while j < NUM_SHARDS
            invariant
                0 <= j <= NUM_SHARDS,
                shards@.len() == j,
                forall|k: int|
                    0 <= k < j ==> (#[trigger] shards@[k]).wf() && shards@[k].id_spec() as int == k
                        && shards@[k].num_entries() == 0
                        && shards@[k].alloc_spec().allocated_spec() == 0,
            decreases NUM_SHARDS - j,
        {
            shards.push(Shard::new(j));
            j = j + 1;
        }
        let c = StringCache { shards };
        proof {
            assert forall|s: Seq<u8>| !c.contains_str(s) by {
                assert(0 <= shard_of(s) < NUM_SHARDS as int);
                assert(c.shard_at(shard_of(s)).num_entries() == 0);
            }
            c.lemma_allocated_zero(NUM_SHARDS as int);
        }
        c
    }

    /// Canonicalizes `bytes`: hashes it, routes it to its shard, and returns
    /// the handle of the one entry for it, creating that entry on the first
    /// call. Interning the same content again changes nothing and hands back
    /// a handle naming the same entry; every previously valid handle stays
    /// valid.
    pub fn intern(&mut self, bytes: &[u8]) -> (h: Handle)
        requires
            old(self).wf(),
        ensures
            final(self).wf(),
            h@ == bytes@,
            final(self).valid_handle(h),
            forall|s: Seq<u8>|
                final(self).contains_str(s) <==> old(self).contains_str(s) || s == bytes@,
            forall|h2: Handle|
                old(self).valid_handle(h2) ==> final(self).valid_handle(h2),
            old(self).contains_str(bytes@) ==> forall|j: int|
                0 <= j < NUM_SHARDS as int ==> final(self).shard_at(j) == old(self).shard_at(j),
            old(self).contains_str(bytes@) ==> final(self).allocated_spec() == old(
                self,
            ).allocated_spec(),
            !old(self).contains_str(bytes@) ==> {
                &&& final(self).shard_at(shard_of(bytes@)).alloc_spec().allocated_spec()
                    == sat_add_usize(
                    old(self).shard_at(shard_of(bytes@)).alloc_spec().allocated_spec(),
                    entry_cost(bytes@.len()),
                )
                &&& forall|j: int|
                    0 <= j < NUM_SHARDS as int && j != shard_of(bytes@) ==> final(self).shard_at(j)
                        == old(self).shard_at(j)
            },
    {
        let hash = fnv1a(bytes);
        let shard_idx = (hash % (NUM_SHARDS as u64)) as usize;
        proof {
            assert(shard_idx as int == shard_of(bytes@));
            assert(old(self).shard_at(shard_idx as int).wf());
            assert(old(self).shard_at(shard_idx as int).id_spec() as int == shard_idx as int);
        }
        let shard = vstd::std_specs::vec::vec_index_mut(&mut self.shards, shard_idx);
        let h = shard.find_or_insert(bytes, hash);
        proof {
            let j = shard_idx as int;
            assert forall|k: int| 0 <= k < NUM_SHARDS as int && k != j implies self.shard_at(k)
                == old(self).shard_at(k) by {
                assert(self.shards@[k] == old(self).shards@[k]);
            }
            assert forall|k: int| 0 <= k < NUM_SHARDS as int implies (#[trigger] self.shard_at(
                k,
            )).wf() && self.shard_at(k).id_spec() as int == k by {
                if k != j {
                    assert(self.shard_at(k) == old(self).shard_at(k));
                    assert(old(self).shard_at(k).wf());
                    assert(old(self).shard_at(k).id_spec() as int == k);
                }
            }
            assert(self.wf());
            assert forall|s: Seq<u8>| self.contains_str(s) <==> old(self).contains_str(s) || s
                == bytes@ by {
                if shard_of(s) != j {
                    assert(self.shard_at(shard_of(s)) == old(self).shard_at(shard_of(s)));
                    if s == bytes@ {
                        assert(false);
                    }
                }
            }
            assert forall|h2: Handle| old(self).valid_handle(h2) implies self.valid_handle(
                h2,
            ) by {
                let s = h2@;
                if shard_of(s) != j {
                    assert(self.shard_at(shard_of(s)) == old(self).shard_at(shard_of(s)));
                }
            }
            if old(self).contains_str(bytes@) {
                assert forall|k: int| 0 <= k < NUM_SHARDS as int implies self.shard_at(k) == old(
                    self,
                ).shard_at(k) by {
                    assert(self.shards@[k] == old(self).shards@[k]);
                }
                self.lemma_allocated_congruent(*old(self), NUM_SHARDS as int);
            }
        }
        h
    }

    /// Probe-only lookup: returns the handle for `bytes` exactly when it has
    /// already been interned, and nothing otherwise. Never allocates, never
    /// mutates.
    pub fn lookup_existing(&self, bytes: &[u8]) -> (r: Option<Handle>)
        requires
            self.wf(),
        ensures
            match r {
                Some(h) => {
                    &&& self.contains_str(bytes@)
                    &&& h@ == bytes@
                    &&& self.valid_handle(h)
                },
                None => !self.contains_str(bytes@),
            },
    {
        let hash = fnv1a(bytes);
        let shard_idx = (hash % (NUM_SHARDS as u64)) as usize;
        proof {
            assert(shard_idx as int == shard_of(bytes@));
            assert(self.shard_at(shard_idx as int).wf());
            assert(self.shard_at(shard_idx as int).id_spec() as int == shard_idx as int);
        }
        let shard = &self.shards[shard_idx];
        proof {
            assert(*shard == self.shard_at(shard_idx as int));
        }
        shard.find(bytes, hash)
    }

    /// Discards every entry and every arena, for test or benchmark isolation
    /// only. It must not be called while any handle minted from this cache is
    /// still in use: such handles would alias entries created afterwards.
    pub fn reset_all(&mut self)
        requires
            old(self).wf(),
        ensures
            final(self).wf(),
            forall|s: Seq<u8>| !final(self).contains_str(s),
            final(self).allocated_spec() == 0,
    {
        let mut j: usize = 0;
        while j < NUM_SHARDS
            invariant
                0 <= j <= NUM_SHARDS,
                self.num_shards() == NUM_SHARDS as int,
                forall|k: int|
                    0 <= k < NUM_SHARDS as int ==> (#[trigger] self.shard_at(k)).wf()
                        && self.shard_at(k).id_spec() as int == k,
                forall|k: int|
                    0 <= k < j ==> (#[trigger] self.shard_at(k)).num_entries() == 0
                        && self.shard_at(k).alloc_spec().allocated_spec() == 0,
            decreases NUM_SHARDS - j,
        {
            let ghost prev = *self;
            proof {
                assert(prev.shard_at(j as int).wf());
            }
            let shard = vstd::std_specs::vec::vec_index_mut(&mut self.shards, j);
            shard.reset();
            proof {
                assert forall|k: int| 0 <= k < NUM_SHARDS as int && k != j as int implies self
                    .shard_at(k) == prev.shard_at(k) by {
                    assert(self.shards@[k] == prev.shards@[k]);
                }
                assert forall|k: int| 0 <= k < NUM_SHARDS as int implies (#[trigger] self.shard_at(
                    k,
                )).wf() && self.shard_at(k).id_spec() as int == k by {
                    if k != j as int {
                        assert(self.shard_at(k) == prev.shard_at(k));
                        assert(prev.shard_at(k).wf());
                        assert(prev.shard_at(k).id_spec() as int == k);
                    }
                }
                assert forall|k: int| 0 <= k < j + 1 implies (#[trigger] self.shard_at(
                    k,
                )).num_entries() == 0 && self.shard_at(k).alloc_spec().allocated_spec() == 0 by {
                    if k != j as int {
                        assert(self.shard_at(k) == prev.shard_at(k));
                        assert(prev.shard_at(k).num_entries() == 0);
                        assert(prev.shard_at(k).alloc_spec().allocated_spec() == 0);
                    }
                }
            }
            j = j + 1;
        }
        proof {
            assert forall|s: Seq<u8>| !self.contains_str(s) by {
                assert(0 <= shard_of(s) < NUM_SHARDS as int);
                assert(self.shard_at(shard_of(s)).num_entries() == 0);
            }
            self.lemma_allocated_zero(NUM_SHARDS as int);
        }
    }

    /// Total arena bytes the cache has handed out, summed over its shards and
    /// saturating at `usize::MAX`. Interning a string that is already present
    /// leaves this count unchanged.
    pub fn allocated_bytes(&self) -> (r: usize)
        requires
            self.wf(),
        ensures
            r == self.allocated_spec(),
    {
        let mut total: usize = 0;
        let mut j: usize = 0;
        while j < NUM_SHARDS
            invariant
                self.wf(),
                0 <= j <= NUM_SHARDS,
                total == self.allocated_below(j as int),
            decreases NUM_SHARDS - j,
        {
            let a = self.shards[j].allocated();
            if a <= usize::MAX - total {
                total = total + a;
            } else {
                total = usize::MAX;
            }
            j = j + 1;
        }
        total
    }
}

/// The canonicalization law. In one well-formed cache, two valid handles
/// stand for the same byte string exactly when they name the same entry —
/// so identity equality of handles coincides with equality of contents, and
/// equal contents also carry equal precomputed hashes. Distinct contents,
/// conversely, always yield handles that compare unequal.
pub proof fn lemma_canonicalization(c: StringCache, h1: Handle, h2: Handle)
    requires
        c.wf(),
        c.valid_handle(h1),
        c.valid_handle(h2),
    ensures
        h1@ == h2@ <==> h1.same_entry(h2),
        h1@ == h2@ <==> h1.eq_spec(&h2),
        h1@ == h2@ ==> h1.hash_spec() == h2.hash_spec(),
{
    if h1.same_entry(h2) {
        let j = shard_of(h1@);
        let shard = c.shard_at(j);
        shard.lemma_index_of(h1@);
        assert(shard_of(h2@) == j);
        c.shard_at(shard_of(h2@)).lemma_index_of(h2@);
        assert(shard.entry_at(shard.index_of(h1@)) == h1@);
        assert(shard.entry_at(shard.index_of(h2@)) == h2@);
    }
}

/// The hash-stability law. A valid handle's precomputed hash is a pure
/// function of its content, so handles for equal content carry identical
/// hashes — whether minted by repeated calls on one cache or by caches in
/// different runs of the same program.
pub proof fn lemma_hash_stability(c1: StringCache, c2: StringCache, h1: Handle, h2: Handle)
    requires
        c1.valid_handle(h1),
        c2.valid_handle(h2),
        h1@ == h2@,
    ensures
        h1.hash_spec() == h2.hash_spec(),
{
}

} // verus!
