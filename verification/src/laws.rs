//! What holds of every memory, proved from the definitions of its operations.

use crate::allocation::{window_start, AllocationView};
use crate::codec::{
    decode_int, decode_uint, encode_int, encode_uint, lemma_encode_uint_len,
    lemma_int_round_trip, lemma_uint_round_trip, pow256,
};
use crate::error::EvalError;
use crate::memory::{rehomed, MemoryView};
use crate::pointer::{AllocId, Pointer};
use vstd::prelude::*;

verus! {

/// Writes and copies keep a memory well formed, whether they are allowed or
/// refused.
pub proof fn lemma_writes_keep_wf(
    m: MemoryView,
    ptr: Pointer,
    other: Pointer,
    data: Seq<u8>,
    size: int,
)
    requires
        m.wf(),
        0 <= size,
    ensures
        m.store(ptr, data).wf(),
        m.store_ptr(ptr, other).wf(),
        m.copy(ptr, other, size).wf(),
{
    lemma_encode_uint_len(m.byte_order, other.offset as nat, m.pointer_size as nat);
    if m.copy_access(ptr, other, size) is Ok {
        let to = m.allocs[other.alloc_id];
        assert(to.wf() && to.in_bounds(other.offset as int, other.offset + size));
    }
}

/// Plain data that was stored can be read back: after a write that was
/// allowed, the same range is still plain data and holds what was written.
/// The rest of the memory is as it was.
pub proof fn lemma_store_then_load(m: MemoryView, ptr: Pointer, data: Seq<u8>)
    requires
        m.data_access(ptr, data.len() as int) is Ok,
    ensures
        m.store(ptr, data).data_access(ptr, data.len() as int) is Ok,
        m.store(ptr, data).bytes_at(ptr, data.len() as int) == data,
        m.store(ptr, data).allocs.dom() == m.allocs.dom(),
        m.store(ptr, data).allocs[ptr.alloc_id].relocations == m.allocs[ptr.alloc_id].relocations,
        m.store(ptr, data).allocs[ptr.alloc_id].bytes.len() == m.allocs[ptr.alloc_id].bytes.len(),
        forall|other: AllocId|
            other != ptr.alloc_id ==> m.store(ptr, data).allocs[other] == m.allocs[other],
{
    let after = m.store(ptr, data);
    assert(after.bytes_at(ptr, data.len() as int) =~= data);
    assert(after.allocs.dom() =~= m.allocs.dom());
}

/// An unsigned integer that fits in `width` bytes is read back as it was
/// written, in either byte order.
pub proof fn lemma_write_uint_then_read_uint(m: MemoryView, ptr: Pointer, n: nat, width: nat)
    requires
        m.data_access(ptr, width as int) is Ok,
        n < pow256(width),
    ensures
        ({
            let after = m.store(ptr, encode_uint(m.byte_order, n, width));
            &&& after.data_access(ptr, width as int) is Ok
            &&& decode_uint(after.byte_order, after.bytes_at(ptr, width as int)) == n
        }),
{
    lemma_uint_round_trip(m.byte_order, n, width);
    lemma_store_then_load(m, ptr, encode_uint(m.byte_order, n, width));
}

/// A signed integer in the two's complement range of `width` bytes is read
/// back as it was written, in either byte order.
pub proof fn lemma_write_int_then_read_int(m: MemoryView, ptr: Pointer, n: int, width: nat)
    requires
        m.data_access(ptr, width as int) is Ok,
        -(pow256(width) as int) <= 2 * n < pow256(width),
    ensures
        ({
            let after = m.store(ptr, encode_int(m.byte_order, n, width));
            &&& after.data_access(ptr, width as int) is Ok
            &&& decode_int(after.byte_order, after.bytes_at(ptr, width as int)) == n
        }),
{
    lemma_int_round_trip(m.byte_order, n, width);
    lemma_store_then_load(m, ptr, encode_int(m.byte_order, n, width));
}

/// A pointer that was stored is read back as it was written, whether the
/// place held plain data or a pointer before. The relocation at the place
/// names the allocation of the stored pointer, and the place can take a
/// pointer again.
pub proof fn lemma_write_ptr_then_read_ptr(m: MemoryView, dest: Pointer, value: Pointer)
    requires
        m.wf(),
        m.edge_access(dest, m.pointer_size as int) is Ok,
        value.offset < pow256(m.pointer_size as nat),
    ensures
        m.store_ptr(dest, value).load_ptr(dest) == Ok::<Pointer, EvalError>(value),
        m.store_ptr(dest, value).allocs[dest.alloc_id].relocations == m.allocs[dest.alloc_id].relocations.insert(
            dest.offset,
            value.alloc_id,
        ),
        m.store_ptr(dest, value).edge_access(dest, m.pointer_size as int) is Ok,
{
    let size = m.pointer_size as int;
    let data = m.offset_bytes(value.offset);
    lemma_uint_round_trip(m.byte_order, value.offset as nat, m.pointer_size as nat);
    let after = m.store_ptr(dest, value);
    let before = m.allocs[dest.alloc_id];
    let alloc = after.allocs[dest.alloc_id];
    let start = dest.offset as int;
    assert(after.bytes_at(dest, size) =~= data);
    assert forall|k: usize| #[trigger]
        alloc.relocations.contains_key(k) && window_start(start, size) <= k < start + size implies k
        == dest.offset by {
        if k != dest.offset {
            assert(before.relocations.contains_key(k));
            if k < start {
                assert(before.overlaps_relocation(start, start, size));
            } else {
                assert(window_start(start + size, size) <= k < start + size);
                assert(before.overlaps_relocation(start + size, start + size, size));
            }
        }
    }
    assert(!alloc.overlaps_relocation(start, start, size));
    assert(!alloc.overlaps_relocation(start + size, start + size, size));
}

/// A stored pointer can be overwritten by another: a second write of a
/// pointer at the same place is allowed, and the second pointer is then the
/// one that is read there.
pub proof fn lemma_write_ptr_overwrites(
    m: MemoryView,
    dest: Pointer,
    first: Pointer,
    second: Pointer,
)
    requires
        m.wf(),
        m.edge_access(dest, m.pointer_size as int) is Ok,
        first.offset < pow256(m.pointer_size as nat),
        second.offset < pow256(m.pointer_size as nat),
    ensures
        ({
            let once = m.store_ptr(dest, first);
            let twice = once.store_ptr(dest, second);
            &&& once.edge_access(dest, m.pointer_size as int) is Ok
            &&& twice.load_ptr(dest) == Ok::<Pointer, EvalError>(second)
            &&& twice.allocs[dest.alloc_id].relocations[dest.offset] == second.alloc_id
            &&& twice == m.store_ptr(dest, second)
        }),
{
    let once = m.store_ptr(dest, first);
    let twice = once.store_ptr(dest, second);
    let direct = m.store_ptr(dest, second);
    lemma_write_ptr_then_read_ptr(m, dest, first);
    lemma_writes_keep_wf(m, dest, first, Seq::empty(), 0);
    lemma_write_ptr_then_read_ptr(once, dest, second);
    lemma_write_ptr_then_read_ptr(m, dest, second);
    lemma_encode_uint_len(m.byte_order, first.offset as nat, m.pointer_size as nat);
    lemma_encode_uint_len(m.byte_order, second.offset as nat, m.pointer_size as nat);
    assert(twice.allocs[dest.alloc_id].bytes =~= direct.allocs[dest.alloc_id].bytes);
    assert(twice.allocs[dest.alloc_id].relocations =~= direct.allocs[dest.alloc_id].relocations);
    assert(twice.allocs =~= direct.allocs);
}

/// The bytes of a stored pointer are not plain data: after a pointer was
/// stored at `dest`, no access to one or more bytes of the same allocation
/// that lies within its bounds and takes in a byte of the pointer is allowed
/// as a data access. An access at `dest` itself is one of these.
pub proof fn lemma_pointer_is_not_data(
    m: MemoryView,
    dest: Pointer,
    value: Pointer,
    ptr: Pointer,
    size: int,
)
    requires
        m.wf(),
        m.edge_access(dest, m.pointer_size as int) is Ok,
        ptr.alloc_id == dest.alloc_id,
        ptr.offset + size <= m.allocs[dest.alloc_id].bytes.len(),
        ptr.offset < dest.offset + m.pointer_size,
        dest.offset < ptr.offset + size,
    ensures
        m.store_ptr(dest, value).data_access(ptr, size) == Err::<(), EvalError>(
            EvalError::ReadPointerAsBytes,
        ),
{
    let after = m.store_ptr(dest, value);
    let alloc = after.allocs[dest.alloc_id];
    assert(alloc.relocations.contains_key(dest.offset));
    assert(alloc.bytes.len() == m.allocs[dest.alloc_id].bytes.len()) by {
        lemma_encode_uint_len(
            m.byte_order,
            value.offset as nat,
            m.pointer_size as nat,
        );
    }
}

/// Plain data is not a pointer: where a range of the pointer size is plain
/// data, and after any write of plain data to it, a read of a pointer there
/// answers that the bytes are no pointer.
pub proof fn lemma_data_is_not_pointer(m: MemoryView, ptr: Pointer, data: Seq<u8>)
    requires
        m.wf(),
        m.data_access(ptr, m.pointer_size as int) is Ok,
        data.len() == m.pointer_size,
    ensures
        m.load_ptr(ptr) == Err::<Pointer, EvalError>(EvalError::ReadBytesAsPointer),
        m.store(ptr, data).load_ptr(ptr) == Err::<Pointer, EvalError>(
            EvalError::ReadBytesAsPointer,
        ),
{
    let size = m.pointer_size as int;
    let start = ptr.offset as int;
    let after = m.store(ptr, data);
    lemma_store_then_load(m, ptr, data);
    lemma_plain_range(m.allocs[ptr.alloc_id], start, size, size);
    lemma_plain_range(after.allocs[ptr.alloc_id], start, size, size);
}

/// In a range that no pointer reaches into, no relocation stands at the
/// start, and neither edge cuts a pointer.
proof fn lemma_plain_range(alloc: AllocationView, start: int, size: int, pointer_size: int)
    requires
        0 <= start,
        0 <= size,
        1 <= pointer_size,
        alloc.no_relocations_check(start, start + size, pointer_size) is Ok,
    ensures
        alloc.relocation_edges_check(start, start + size, pointer_size) is Ok,
        forall|k: usize| start <= k < start + size ==> !alloc.relocations.contains_key(k),
{
    if alloc.overlaps_relocation(start, start, pointer_size) {
        let k = choose|k: usize| #[trigger]
            alloc.relocations.contains_key(k) && window_start(start, pointer_size) <= k < start;
        assert(alloc.overlaps_relocation(start, start + size, pointer_size));
    }
    if alloc.overlaps_relocation(start + size, start + size, pointer_size) {
        let k = choose|k: usize| #[trigger]
            alloc.relocations.contains_key(k) && window_start(start + size, pointer_size) <= k
                < start + size;
        assert(alloc.overlaps_relocation(start, start + size, pointer_size));
    }
    assert forall|k: usize| start <= k < start + size implies !alloc.relocations.contains_key(
        k,
    ) by {
        if alloc.relocations.contains_key(k) {
            assert(alloc.overlaps_relocation(start, start + size, pointer_size));
        }
    }
}

/// A range that reaches past the end of a live allocation is out of bounds,
/// for every kind of access.
pub proof fn lemma_out_of_bounds(m: MemoryView, ptr: Pointer, size: int)
    requires
        m.allocs.contains_key(ptr.alloc_id),
        0 <= size,
        ptr.offset + size > m.allocs[ptr.alloc_id].bytes.len(),
    ensures
        m.data_access(ptr, size) == Err::<(), EvalError>(EvalError::PointerOutOfBounds),
        m.edge_access(ptr, size) == Err::<(), EvalError>(EvalError::PointerOutOfBounds),
        m.store(ptr, Seq::new(size as nat, |i: int| 0u8)) == m,
        size == m.pointer_size ==> m.load_ptr(ptr) == Err::<Pointer, EvalError>(
            EvalError::PointerOutOfBounds,
        ),
{
}

/// A pointer into an allocation that is not live is dangling, for every kind
/// of access, and a refused access leaves the memory as it was. A copy from a
/// dangling source is refused as dangling; one to a dangling destination is
/// too, once its source has passed.
pub proof fn lemma_dangling(m: MemoryView, ptr: Pointer, other: Pointer, size: int, data: Seq<u8>)
    requires
        !m.allocs.contains_key(ptr.alloc_id),
    ensures
        m.data_access(ptr, size) == Err::<(), EvalError>(EvalError::DanglingPointerDeref),
        m.edge_access(ptr, size) == Err::<(), EvalError>(EvalError::DanglingPointerDeref),
        m.load_ptr(ptr) == Err::<Pointer, EvalError>(EvalError::DanglingPointerDeref),
        m.store(ptr, data) == m,
        m.store_ptr(ptr, other) == m,
        m.copy_access(ptr, other, size) == Err::<(), EvalError>(EvalError::DanglingPointerDeref),
        m.copy(ptr, other, size) == m,
        m.edge_access(other, size) is Ok ==> m.copy_access(other, ptr, size) == Err::<
            (),
            EvalError,
        >(EvalError::DanglingPointerDeref),
        m.copy(other, ptr, size) == m,
{
}

/// A copy hands on the bytes of the source as they were before the copy,
/// also where source and destination lie in one allocation and overlap.
/// Outside the destination range the destination's bytes stay, and no other
/// allocation changes.
pub proof fn lemma_copy_moves_bytes(m: MemoryView, src: Pointer, dest: Pointer, size: int)
    requires
        0 <= size,
        m.copy_access(src, dest, size) is Ok,
    ensures
        m.copy(src, dest, size).bytes_at(dest, size) == m.bytes_at(src, size),
        m.copy(src, dest, size).allocs.dom() == m.allocs.dom(),
        ({
            let old_bytes = m.allocs[dest.alloc_id].bytes;
            let new_bytes = m.copy(src, dest, size).allocs[dest.alloc_id].bytes;
            &&& new_bytes.len() == old_bytes.len()
            &&& forall|i: int|
                0 <= i < old_bytes.len() && !(dest.offset <= i < dest.offset + size)
                    ==> new_bytes[i] == old_bytes[i]
        }),
        forall|other: AllocId|
            other != dest.alloc_id ==> m.copy(src, dest, size).allocs[other] == m.allocs[other],
{
    let after = m.copy(src, dest, size);
    assert(after.bytes_at(dest, size) =~= m.bytes_at(src, size));
    assert(after.allocs.dom() =~= m.allocs.dom());
}

/// A copy carries stored pointers along. Where a pointer can be read in the
/// copied range of the source, and the destination is another allocation,
/// the same pointer is read at the same distance from the start of the
/// destination.
pub proof fn lemma_copy_carries_pointers(
    m: MemoryView,
    src: Pointer,
    dest: Pointer,
    size: int,
    at: usize,
    value: Pointer,
)
    requires
        m.wf(),
        0 <= size,
        m.copy_access(src, dest, size) is Ok,
        src.alloc_id != dest.alloc_id,
        src.offset <= at < src.offset + size,
        m.load_ptr(Pointer { alloc_id: src.alloc_id, offset: at }) == Ok::<Pointer, EvalError>(
            value,
        ),
    ensures
        dest.offset + (at - src.offset) + m.pointer_size <= dest.offset + size <= usize::MAX,
        m.copy(src, dest, size).load_ptr(
            Pointer { alloc_id: dest.alloc_id, offset: (dest.offset + (at - src.offset)) as usize },
        ) == Ok::<Pointer, EvalError>(value),
{
    let ps = m.pointer_size as int;
    let s = src.offset as int;
    let d = dest.offset as int;
    let from = m.allocs[src.alloc_id];
    let to = m.allocs[dest.alloc_id];
    let after = m.copy(src, dest, size);
    let alloc = after.allocs[dest.alloc_id];
    let moved = rehomed(from.relocations, s, d, size);
    let there = (d + (at - s)) as usize;
    let from_ptr = Pointer { alloc_id: src.alloc_id, offset: at };
    let to_ptr = Pointer { alloc_id: dest.alloc_id, offset: there };

    assert(from.relocations.contains_key(at));
    // The copied range ends at or after the end of the pointer.
    if at + ps > s + size {
        assert(window_start(s + size, ps) <= at < s + size);
        assert(from.overlaps_relocation(s + size, s + size, ps));
    }
    assert(to.wf() && to.in_bounds(d, d + size));
    assert((there - d + s) as usize == at);
    assert(moved.contains_key(there));
    assert(alloc.relocations.contains_key(there));
    assert(alloc.relocations[there] == from.relocations[at]);
    assert(after.bytes_at(to_ptr, ps) =~= m.bytes_at(from_ptr, ps));

    // No pointer of the destination reaches the edges of the new one.
    assert forall|k: usize| #[trigger]
        alloc.relocations.contains_key(k) && window_start(there as int, ps) <= k < there + ps implies k
        == there by {
        if k != there {
            if moved.contains_key(k) {
                let origin = (k - d + s) as usize;
                assert(from.relocations.contains_key(origin));
                if origin < at {
                    assert(window_start(at as int, ps) <= origin < at);
                    assert(from.overlaps_relocation(at as int, at as int, ps));
                } else {
                    assert(window_start(at + ps, ps) <= origin < at + ps);
                    assert(from.overlaps_relocation(at + ps, at + ps, ps));
                }
            } else {
                assert(to.relocations.contains_key(k));
                assert(window_start(d, ps) <= k < d + size);
                assert(to.overlaps_relocation(d, d + size, ps));
            }
        }
    }
    assert(!alloc.overlaps_relocation(there as int, there as int, ps));
    assert(!alloc.overlaps_relocation(there + ps, there + ps, ps));
}

} // verus!
