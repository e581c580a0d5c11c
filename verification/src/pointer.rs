//! Allocation identifiers and pointers.

use vstd::prelude::*;

verus! {

/// Names one allocation. Two identifiers are equal when their numbers are.
#[derive(Copy, Clone, Debug, PartialEq, Eq, Structural)]
pub struct AllocId(pub u64);

/// A location in memory: an allocation and a byte offset into it.
#[derive(Copy, Clone, Debug, PartialEq, Eq, Structural)]
pub struct Pointer {
    pub alloc_id: AllocId,
    pub offset: usize,
}

/// The offset `offset + delta`, wrapped into the range of `usize`.
pub open spec fn wrapped_offset(offset: usize, delta: isize) -> usize {
    let sum = offset + delta;
    if sum < 0 {
        (sum + usize::MAX + 1) as usize
    } else if sum > usize::MAX {
        (sum - usize::MAX - 1) as usize
    } else {
        sum as usize
    }
}

impl Pointer {
    /// A pointer into the same allocation, `i` bytes further on (or back, for
    /// a negative `i`). The new offset is not checked against the allocation's
    /// bounds: the next access through the pointer does that. An offset that
    /// leaves the range of `usize` wraps around.
    pub fn offset(self, i: isize) -> (r: Pointer)
        ensures
            r.alloc_id == self.alloc_id,
            r.offset == wrapped_offset(self.offset, i),
            0 <= self.offset + i <= usize::MAX ==> r.offset == self.offset + i,
    {
        Pointer { alloc_id: self.alloc_id, offset: self.offset.wrapping_add_signed(i) }
    }
}

} // verus!
