//! The handle returned by interning.
//!
//! A `Handle` names one cache entry: the shard it lives in, its slot within
//! that shard, its precomputed content hash, and the canonical bytes. Equality
//! compares the entry identity in constant time — sound because the cache
//! never creates two entries for the same content — while ordering compares
//! contents lexicographically, so sorting handles sorts the strings they
//! stand for. Reading a handle never touches the cache or any lock.

use vstd::prelude::*;
use core::cmp::Ordering;
use vstd::std_specs::cmp::PartialOrdSpec;
use crate::bytestr::{cmp_bytes, lemma_lex_cmp_equal, lex_cmp};

verus! {

/// A cheap reference to one interned string.
#[derive(Clone, Debug)]
pub struct Handle {
    pub(crate) shard: usize,
    pub(crate) index: usize,
    pub(crate) hash: u64,
    pub(crate) bytes: Vec<u8>,
}

impl View for Handle {
    type V = Seq<u8>;

    /// A handle is viewed as the byte string it stands for.
    closed spec fn view(&self) -> Seq<u8> {
        self.bytes@
    }
}

impl Handle {
    /// The shard the referenced entry lives in.
    pub closed spec fn shard_id(self) -> usize {
        self.shard
    }

    /// The slot of the referenced entry within its shard.
    pub closed spec fn entry_index(self) -> usize {
        self.index
    }

    /// The stored content hash.
    pub closed spec fn hash_spec(self) -> u64 {
        self.hash
    }

    /// Two handles name the same cache entry.
    pub open spec fn same_entry(self, other: Handle) -> bool {
        self.shard_id() == other.shard_id() && self.entry_index() == other.entry_index()
            && self.hash_spec() == other.hash_spec()
    }

    /// Mints the handle for one cache entry; only the cache calls this.
    pub(crate) fn mint(shard: usize, index: usize, hash: u64, bytes: Vec<u8>) -> (h: Handle)
        ensures
            h.shard_id() == shard,
            h.entry_index() == index,
            h.hash_spec() == hash,
            h@ == bytes@,
    {
        Handle { shard, index, hash, bytes }
    }

    /// The interned bytes, straight from the handle: no cache access, no lock.
    pub fn content(&self) -> (r: &[u8])
        ensures
            r@ == self@,
    {
        self.bytes.as_slice()
    }

    /// The length of the interned string, in bytes.
    pub fn length(&self) -> (r: usize)
        ensures
            r == self@.len(),
    {
        self.bytes.len()
    }

    /// The content hash computed once when the entry was created; never
    /// recomputed.
    pub fn precomputed_hash(&self) -> (r: u64)
        ensures
            r == self.hash_spec(),
    {
        self.hash
    }
}

impl PartialEq for Handle {
    /// Constant-time equality: compares the entry identity, not the bytes.
    fn eq(&self, other: &Handle) -> (r: bool) {
        self.shard == other.shard && self.index == other.index && self.hash == other.hash
    }
}

impl vstd::std_specs::cmp::PartialEqSpecImpl for Handle {
    open spec fn obeys_eq_spec() -> bool {
        true
    }

    open spec fn eq_spec(&self, other: &Handle) -> bool {
        self.same_entry(*other)
    }
}

impl PartialOrd for Handle {
    /// Lexicographic comparison of the interned contents, so that an order on
    /// handles is the order on the strings they stand for.
    fn partial_cmp(&self, other: &Handle) -> (r: Option<Ordering>) {
        Some(cmp_bytes(self.bytes.as_slice(), other.bytes.as_slice()))
    }
}

impl vstd::std_specs::cmp::PartialOrdSpecImpl for Handle {
    open spec fn obeys_partial_cmp_spec() -> bool {
        true
    }

    open spec fn partial_cmp_spec(&self, other: &Handle) -> Option<Ordering> {
        Some(lex_cmp(self@, other@))
    }
}

/// The order-consistency law: comparing two handles is, by specification,
/// the lexicographic comparison of their contents, so sorting a collection
/// of handles yields the same relative order as sorting the strings they
/// stand for; and they compare `Equal` exactly on equal contents.
pub proof fn lemma_order_consistency(h1: Handle, h2: Handle)
    ensures
        h1.partial_cmp_spec(&h2) == Some(lex_cmp(h1@, h2@)),
        h1.partial_cmp_spec(&h2) == Some(Ordering::Equal) <==> h1@ == h2@,
{
    lemma_lex_cmp_equal(h1@, h2@);
}

} // verus!
