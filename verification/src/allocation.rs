//! One allocation: a byte buffer and the record of the pointers stored in it.

use crate::error::{EvalError, EvalResult};
use crate::pointer::AllocId;
use std::collections::BTreeMap;
use vstd::prelude::*;

verus! {

/// One contiguous block of simulated memory.
#[derive(Debug)]
pub struct Allocation {
    /// The bytes of the block.
    pub bytes: Vec<u8>,
    /// For each offset at which a pointer is stored, the allocation that the
    /// pointer refers to. The pointer's own offset is held in `bytes`.
    pub relocations: BTreeMap<usize, AllocId>,
}

/// What an allocation holds, as mathematical values.
pub struct AllocationView {
    pub bytes: Seq<u8>,
    pub relocations: Map<usize, AllocId>,
}

impl View for Allocation {
    type V = AllocationView;

    open spec fn view(&self) -> AllocationView {
        AllocationView { bytes: self.bytes@, relocations: self.relocations@ }
    }
}

/// The lowest offset at which a pointer of `pointer_size` bytes still reaches
/// the byte at `start`: `start - (pointer_size - 1)`, or 0 if that is negative.
pub open spec fn window_start(start: int, pointer_size: int) -> int {
    if start - (pointer_size - 1) < 0 {
        0
    } else {
        start - (pointer_size - 1)
    }
}

impl AllocationView {
    /// The buffer has a length that the machine can hold, and every
    /// relocation lies inside the buffer.
    pub open spec fn wf(self) -> bool {
        &&& self.bytes.len() <= usize::MAX
        &&& forall|k: usize| #[trigger] self.relocations.contains_key(k) ==> k < self.bytes.len()
    }

    /// Both ends of a range lie inside the buffer, or at its end.
    pub open spec fn in_bounds(self, start: int, end: int) -> bool {
        start <= self.bytes.len() && end <= self.bytes.len()
    }

    /// The offsets of the relocations whose pointer reaches into `[start, end)`:
    /// those that begin in the range, or less than a pointer's size before it.
    pub open spec fn overlapping_relocations(self, start: int, end: int, pointer_size: int) -> Set<
        usize,
    > {
        self.relocations.dom().filter(|k: usize| window_start(start, pointer_size) <= k < end)
    }

    /// Some relocation's pointer reaches into `[start, end)`.
    pub open spec fn overlaps_relocation(self, start: int, end: int, pointer_size: int) -> bool {
        exists|k: usize| #[trigger]
            self.relocations.contains_key(k) && window_start(start, pointer_size) <= k < end
    }

    /// What a bounds check of `start` and `end` answers.
    pub open spec fn bounds_check(self, start: int, end: int) -> EvalResult<()> {
        if self.in_bounds(start, end) {
            Ok(())
        } else {
            Err(EvalError::PointerOutOfBounds)
        }
    }

    /// What a check of `[start, end)` for plain data answers: the range must
    /// be in bounds and no pointer may reach into it.
    pub open spec fn no_relocations_check(self, start: int, end: int, pointer_size: int)
        -> EvalResult<()> {
        if !self.in_bounds(start, end) {
            Err(EvalError::PointerOutOfBounds)
        } else if self.overlaps_relocation(start, end, pointer_size) {
            Err(EvalError::ReadPointerAsBytes)
        } else {
            Ok(())
        }
    }

    /// What a check of the two edges of `[start, end)` answers: the range must
    /// be in bounds, and no pointer that begins before `start` may reach the
    /// byte at `start`, nor one that begins before `end` the byte at `end`.
    /// Pointers that lie wholly inside the range are allowed.
    pub open spec fn relocation_edges_check(self, start: int, end: int, pointer_size: int)
        -> EvalResult<()> {
        if !self.in_bounds(start, end) {
            Err(EvalError::PointerOutOfBounds)
        } else if self.overlaps_relocation(start, start, pointer_size)
            || self.overlaps_relocation(end, end, pointer_size) {
            Err(EvalError::ReadPointerAsBytes)
        } else {
            Ok(())
        }
    }
}

impl Allocation {
    /// Checks that `start` and `end` both lie inside the buffer or at its end.
    /// That `start` is not beyond `end` is left to the caller.
    pub fn check_bounds(&self, start: usize, end: usize) -> (r: EvalResult<()>)
        ensures
            r == self@.bounds_check(start as int, end as int),
    {
        if start <= self.bytes.len() && end <= self.bytes.len() {
            Ok(())
        } else {
            Err(EvalError::PointerOutOfBounds)
        }
    }

    /// Counts the relocations whose pointer reaches into `[start, end)`.
    pub fn count_overlapping_relocations(&self, start: usize, end: usize, pointer_size: usize) -> (n:
        usize)
        requires
            1 <= pointer_size,
        ensures
            n == self@.overlapping_relocations(
                start as int,
                end as int,
                pointer_size as int,
            ).len(),
            n == 0 <==> !self@.overlaps_relocation(start as int, end as int, pointer_size as int),
    {
        broadcast use vstd::std_specs::btree::group_btree_axioms;

        let lo: usize = start.saturating_sub(pointer_size - 1);
        let mut n: usize = 0;
        let ghost mut seen: Set<usize> = Set::empty();
        for entry in it: self.relocations.iter()
            invariant
                lo == window_start(start as int, pointer_size as int),
                n == seen.len(),
                seen.finite(),
                n <= it.index(),
                it.seq().len() == self.relocations@.dom().len(),
                self.relocations@.dom().len() == self.relocations.len(),
                it.seq().no_duplicates(),
                forall|i: int|
                    0 <= i < it.seq().len() ==> self.relocations@.contains_key(*it.seq()[i].0)
                        && self.relocations@[*it.seq()[i].0] == *it.seq()[i].1,
                forall|k: usize|
                    self.relocations@.contains_key(k) ==> it.seq().contains(
                        (&k, &self.relocations@[k]),
                    ),
                forall|k: usize|
                    seen.contains(k) <==> (lo <= k < end && exists|i: int|
                        0 <= i < it.index() && *it.seq()[i].0 == k),
        {
            let k: usize = *entry.0;
            if lo <= k && k < end {
                proof {
                    if seen.contains(k) {
                        let i = choose|i: int| 0 <= i < it.index() && *it.seq()[i].0 == k;
                        assert(it.seq()[i] == it.seq()[it.index()]);
                    }
                    seen = seen.insert(k);
                }
                n = n + 1;
            }
        }
        proof {
            let found = self@.overlapping_relocations(start as int, end as int, pointer_size as int);
            assert(seen =~= found);
            if self@.overlaps_relocation(start as int, end as int, pointer_size as int) {
                let k = choose|k: usize| #[trigger]
                    self.relocations@.contains_key(k) && lo <= k < end;
                assert(found.contains(k));
                assert(found.len() != 0);
            }
            if n != 0 {
                let k = found.choose();
                assert(found.contains(k));
                assert(self.relocations@.contains_key(k) && lo <= k < end);
            }
        }
        n
    }

    /// Checks that `[start, end)` is in bounds and that its two edges cut no
    /// stored pointer in two.
    pub fn check_relocation_edges(&self, start: usize, end: usize, pointer_size: usize) -> (r:
        EvalResult<()>)
        requires
            1 <= pointer_size,
        ensures
            r == self@.relocation_edges_check(start as int, end as int, pointer_size as int),
    {
        self.check_bounds(start, end)?;
        if self.count_overlapping_relocations(start, start, pointer_size) != 0 {
            return Err(EvalError::ReadPointerAsBytes);
        }
        if self.count_overlapping_relocations(end, end, pointer_size) != 0 {
            return Err(EvalError::ReadPointerAsBytes);
        }
        Ok(())
    }

    /// Checks that `[start, end)` is in bounds and holds plain data only.
    pub fn check_no_relocations(&self, start: usize, end: usize, pointer_size: usize) -> (r:
        EvalResult<()>)
        requires
            1 <= pointer_size,
        ensures
            r == self@.no_relocations_check(start as int, end as int, pointer_size as int),
    {
        self.check_bounds(start, end)?;
        if self.count_overlapping_relocations(start, end, pointer_size) == 0 {
            Ok(())
        } else {
            Err(EvalError::ReadPointerAsBytes)
        }
    }
}

} // verus!
