//! The leaking arena behind each shard.
//!
//! `LeakyBumpAlloc` fronts a bump arena that only grows: requests advance a
//! monotonic byte counter and carve backing memory from a `bumpalo` arena,
//! and nothing is ever handed back one allocation at a time. The only release
//! is the bulk `clear`, meant solely for isolating benchmark or test runs;
//! after a `clear`, handles minted earlier must no longer be used.

use vstd::prelude::*;
use bumpalo::Bump;

verus! {

/// `a + b`, stopping at `usize::MAX` instead of wrapping.
pub open spec fn sat_add_usize(a: usize, b: usize) -> usize {
    if a + b <= usize::MAX {
        (a + b) as usize
    } else {
        usize::MAX
    }
}

/// The arena type of the `bumpalo` crate, opaque to verification; values of
/// it are only carried and handed to the trusted wrappers below.
#[verifier::external_type_specification]
#[verifier::external_body]
pub struct ExBump<const MIN_ALIGN: usize>(Bump<MIN_ALIGN>);

/// Relies on `bumpalo::Bump::new`: constructs a fresh, empty arena; it
/// allocates nothing up front and cannot fail.
#[verifier::external_body]
fn bump_new() -> Bump {
    Bump::new()
}

/// Relies on `bumpalo::Bump::try_alloc_slice_fill_copy`: carves `num_bytes`
/// of zeroed backing memory out of the arena, growing it as needed; the
/// memory is never individually freed while the arena lives. The fallible
/// variant is used so that exhaustion of the system allocator surfaces as a
/// skipped reservation rather than an unwind; the byte accounting above this
/// call does not depend on the outcome.
#[verifier::external_body]
fn bump_reserve(bump: &Bump, num_bytes: usize) {
    let _ = bump.try_alloc_slice_fill_copy(num_bytes, 0u8);
}

/// A growable, never-freeing allocator: it tracks how many bytes it has
/// handed out and reserves matching backing memory from a bump arena.
pub struct LeakyBumpAlloc {
    bump: Bump,
    capacity: usize,
    allocated: usize,
}

impl LeakyBumpAlloc {
    /// Total bytes this allocator has handed out since creation (or since the
    /// last `clear`).
    pub closed spec fn allocated_spec(self) -> usize {
        self.allocated
    }

    /// The advisory capacity the allocator was created with; allocations past
    /// it simply grow the arena.
    pub closed spec fn capacity_spec(self) -> usize {
        self.capacity
    }

    /// Creates an allocator with an advisory capacity. The alignment argument
    /// records the alignment its callers lay entries out with; the arena
    /// satisfies it without further help, so it is otherwise unused.
    pub fn new(capacity: usize, _alignment: usize) -> (a: LeakyBumpAlloc)
        ensures
            a.allocated_spec() == 0,
            a.capacity_spec() == capacity,
    {
        LeakyBumpAlloc { bump: bump_new(), capacity, allocated: 0 }
    }

    /// Discards all arena memory and resets the byte counter, for isolating
    /// repeated benchmark or test runs. Every handle minted from entries that
    /// lived in this arena is invalidated: none of them may be used again.
    pub fn clear(&mut self)
        ensures
            final(self).allocated_spec() == 0,
            final(self).capacity_spec() == old(self).capacity_spec(),
    {
        self.bump = bump_new();
        self.allocated = 0;
    }

    /// Hands out `num_bytes` fresh bytes and returns the offset the request
    /// starts at, i.e. the counter value before the call. The counter is
    /// monotonic and saturates at `usize::MAX`; it can never reach that bound
    /// in a live process, since every counted byte is backed by real memory.
    pub fn allocate(&mut self, num_bytes: usize) -> (offset: usize)
        ensures
            offset == old(self).allocated_spec(),
            final(self).allocated_spec() == sat_add_usize(
                old(self).allocated_spec(),
                num_bytes,
            ),
            final(self).capacity_spec() == old(self).capacity_spec(),
    {
        bump_reserve(&self.bump, num_bytes);
        let offset = self.allocated;
        if num_bytes <= usize::MAX - self.allocated {
            self.allocated = self.allocated + num_bytes;
        } else {
            self.allocated = usize::MAX;
        }
        offset
    }

    /// The monotonic byte counter.
    pub fn allocated(&self) -> (r: usize)
        ensures
            r == self.allocated_spec(),
    {
        self.allocated
    }

    /// The advisory capacity.
    pub fn capacity(&self) -> (r: usize)
        ensures
            r == self.capacity_spec(),
    {
        self.capacity
    }
}

} // verus!
