//! The table of allocations and the checked operations on it.

use crate::allocation::{Allocation, AllocationView};
use crate::codec::{
    decode_int, decode_uint, encode_int, encode_uint, lemma_encode_int_len,
    lemma_encode_uint_len, lemma_pow256_values, pow256, Endianness,
};
use crate::error::{EvalError, EvalResult};
use crate::pointer::{AllocId, Pointer};
use crate::primval::{bool_byte, PrimVal};
use std::collections::hash_map::Entry;
use std::collections::BTreeMap;
use std::collections::HashMap;
use vstd::prelude::*;

verus! {

/// All the memory of one interpreter run.
pub struct Memory {
    alloc_map: HashMap<u64, Allocation>,
    next_id: u64,
    /// The number of bytes that a stored pointer takes.
    pub pointer_size: usize,
    /// The byte order of every multi-byte value in this memory.
    pub byte_order: Endianness,
}

/// What a memory holds, as mathematical values.
pub struct MemoryView {
    /// The live allocations.
    pub allocs: Map<AllocId, AllocationView>,
    /// How many identifiers were issued so far: the number of the next one.
    pub issued: nat,
    pub pointer_size: usize,
    pub byte_order: Endianness,
}

/// `bytes` with `data` in place of the bytes in `[start, end)`.
pub open spec fn replace_range(bytes: Seq<u8>, start: int, end: int, data: Seq<u8>) -> Seq<u8> {
    bytes.subrange(0, start) + data + bytes.subrange(end, bytes.len() as int)
}

/// The relocations of `[src_start, src_start + size)`, each moved to the same
/// distance from `dest_start`.
pub open spec fn rehomed(
    relocations: Map<usize, AllocId>,
    src_start: int,
    dest_start: int,
    size: int,
) -> Map<usize, AllocId> {
    Map::new(
        |k: usize|
            dest_start <= k < dest_start + size && relocations.contains_key(
                (k - dest_start + src_start) as usize,
            ),
        |k: usize| relocations[(k - dest_start + src_start) as usize],
    )
}

/// Some entry of `found` has the key `key`.
spec fn holds_key(found: Seq<(usize, AllocId)>, key: usize) -> bool {
    exists|j: int| 0 <= j < found.len() && (#[trigger] found[j]).0 == key
}

/// One of the first `n` entries of `found`, moved from `src_start` to the
/// same distance from `dest_start`, has the key `key`.
spec fn lands_at(
    found: Seq<(usize, AllocId)>,
    n: int,
    src_start: int,
    dest_start: int,
    key: usize,
) -> bool {
    exists|i: int| 0 <= i < n && dest_start + ((#[trigger] found[i]).0 - src_start) == key
}

/// Every entry of `found` is a relocation of `relocations` in `[start, end)`.
spec fn holds_relocations_of(
    found: Seq<(usize, AllocId)>,
    relocations: Map<usize, AllocId>,
    start: int,
    end: int,
) -> bool {
    forall|j: int|
        0 <= j < found.len() ==> start <= (#[trigger] found[j]).0 < end
            && relocations.contains_key(found[j].0) && relocations[found[j].0] == found[j].1
}

impl MemoryView {
    /// The pointer size is one that the codecs can take, every allocation is
    /// well formed, and every live identifier was issued.
    pub open spec fn wf(self) -> bool {
        &&& 1 <= self.pointer_size <= 8
        &&& forall|id: AllocId| #[trigger]
            self.allocs.contains_key(id) ==> id.0 < self.issued && self.allocs[id].wf()
    }

    /// Whether `size` bytes at `ptr` may be read or written as plain data:
    /// the allocation must be live, the range in bounds, and no stored
    /// pointer may reach into it.
    pub open spec fn data_access(self, ptr: Pointer, size: int) -> EvalResult<()> {
        if !self.allocs.contains_key(ptr.alloc_id) {
            Err(EvalError::DanglingPointerDeref)
        } else {
            self.allocs[ptr.alloc_id].no_relocations_check(
                ptr.offset as int,
                ptr.offset + size,
                self.pointer_size as int,
            )
        }
    }

    /// Whether `size` bytes at `ptr` may be taken as a whole, stored pointers
    /// included: the allocation must be live, the range in bounds, and
    /// neither edge of the range may cut a stored pointer in two.
    pub open spec fn edge_access(self, ptr: Pointer, size: int) -> EvalResult<()> {
        if !self.allocs.contains_key(ptr.alloc_id) {
            Err(EvalError::DanglingPointerDeref)
        } else {
            self.allocs[ptr.alloc_id].relocation_edges_check(
                ptr.offset as int,
                ptr.offset + size,
                self.pointer_size as int,
            )
        }
    }

    /// The `size` bytes at `ptr`.
    pub open spec fn bytes_at(self, ptr: Pointer, size: int) -> Seq<u8> {
        self.allocs[ptr.alloc_id].bytes.subrange(ptr.offset as int, ptr.offset + size)
    }

    /// The memory with `data` in place of the `size` bytes at `ptr`.
    pub open spec fn with_range(self, ptr: Pointer, size: int, data: Seq<u8>) -> MemoryView {
        let alloc = self.allocs[ptr.alloc_id];
        MemoryView {
            allocs: self.allocs.insert(
                ptr.alloc_id,
                AllocationView {
                    bytes: replace_range(alloc.bytes, ptr.offset as int, ptr.offset + size, data),
                    relocations: alloc.relocations,
                },
            ),
            ..self
        }
    }

    /// The memory with `data` in place of the bytes at `ptr`.
    pub open spec fn with_bytes(self, ptr: Pointer, data: Seq<u8>) -> MemoryView {
        self.with_range(ptr, data.len() as int, data)
    }

    /// The memory after a write of the plain data `data` at `ptr`: with the
    /// data in place where the access is allowed, unchanged where it is not.
    pub open spec fn store(self, ptr: Pointer, data: Seq<u8>) -> MemoryView {
        if self.data_access(ptr, data.len() as int) is Ok {
            self.with_bytes(ptr, data)
        } else {
            self
        }
    }

    /// The memory with a relocation at `ptr` that names `target`.
    pub open spec fn with_relocation(self, ptr: Pointer, target: AllocId) -> MemoryView {
        let alloc = self.allocs[ptr.alloc_id];
        MemoryView {
            allocs: self.allocs.insert(
                ptr.alloc_id,
                AllocationView {
                    bytes: alloc.bytes,
                    relocations: alloc.relocations.insert(ptr.offset, target),
                },
            ),
            ..self
        }
    }

    /// The bytes that stand for the offset of a stored pointer.
    pub open spec fn offset_bytes(self, offset: usize) -> Seq<u8> {
        encode_uint(self.byte_order, offset as nat, self.pointer_size as nat)
    }

    /// The memory after a write of the pointer `value` at `dest`. Where the
    /// range of the pointer passes the check of its edges, its bytes now
    /// hold the offset of `value`, and the relocation at `dest` names its
    /// allocation, whether or not one stood there before. Otherwise nothing
    /// has changed.
    pub open spec fn store_ptr(self, dest: Pointer, value: Pointer) -> MemoryView {
        if self.edge_access(dest, self.pointer_size as int) is Ok {
            self.with_bytes(dest, self.offset_bytes(value.offset)).with_relocation(
                dest,
                value.alloc_id,
            )
        } else {
            self
        }
    }

    /// Whether `size` bytes may be copied from `src` to `dest`: the source
    /// must pass the check of its edges, then the destination the check for
    /// plain data.
    pub open spec fn copy_access(self, src: Pointer, dest: Pointer, size: int) -> EvalResult<()> {
        match self.edge_access(src, size) {
            Err(e) => Err(e),
            Ok(_) => self.data_access(dest, size),
        }
    }

    /// The memory after a copy of `size` bytes from `src` to `dest`. Where
    /// the copy is allowed, the destination holds the bytes that the source
    /// held before, also where the two ranges overlap, and each relocation
    /// of the source range stands in the destination at the same distance
    /// from its start. Otherwise nothing has changed.
    pub open spec fn copy(self, src: Pointer, dest: Pointer, size: int) -> MemoryView {
        if self.copy_access(src, dest, size) is Ok {
            let from = self.allocs[src.alloc_id];
            let to = self.allocs[dest.alloc_id];
            MemoryView {
                allocs: self.allocs.insert(
                    dest.alloc_id,
                    AllocationView {
                        bytes: replace_range(
                            to.bytes,
                            dest.offset as int,
                            dest.offset + size,
                            from.bytes.subrange(src.offset as int, src.offset + size),
                        ),
                        relocations: to.relocations.union_prefer_right(
                            rehomed(from.relocations, src.offset as int, dest.offset as int, size),
                        ),
                    },
                ),
                ..self
            }
        } else {
            self
        }
    }

    /// What a read of a pointer at `ptr` answers. The range of the pointer
    /// must pass the check of its edges, and a relocation must stand at
    /// `ptr`: it gives the allocation, the bytes give the offset.
    pub open spec fn load_ptr(self, ptr: Pointer) -> EvalResult<Pointer> {
        match self.edge_access(ptr, self.pointer_size as int) {
            Err(e) => Err(e),
            Ok(_) => {
                let alloc = self.allocs[ptr.alloc_id];
                if alloc.relocations.contains_key(ptr.offset) {
                    Ok(
                        Pointer {
                            alloc_id: alloc.relocations[ptr.offset],
                            offset: decode_uint(
                                self.byte_order,
                                self.bytes_at(ptr, self.pointer_size as int),
                            ) as usize,
                        },
                    )
                } else {
                    Err(EvalError::ReadBytesAsPointer)
                }
            },
        }
    }
}

/// The table that a map from identifier numbers to allocations stands for.
spec fn table_of(m: Map<u64, Allocation>) -> Map<AllocId, AllocationView> {
    Map::new(|id: AllocId| m.contains_key(id.0), |id: AllocId| m[id.0]@)
}

/// An entry stored in the map is an entry stored in the table.
broadcast proof fn lemma_table_of_insert(m: Map<u64, Allocation>, k: u64, alloc: Allocation)
    ensures
        #[trigger] table_of(m.insert(k, alloc)) == table_of(m).insert(AllocId(k), alloc@),
{
    assert(table_of(m.insert(k, alloc)) =~= table_of(m).insert(AllocId(k), alloc@));
}

/// The table is the same without an entry that the map never held.
broadcast proof fn lemma_table_of_remove_absent(m: Map<u64, Allocation>, k: u64)
    requires
        !m.contains_key(k),
    ensures
        #[trigger] table_of(m.remove(k)) == table_of(m),
{
    assert(table_of(m.remove(k)) =~= table_of(m));
}

impl View for Memory {
    type V = MemoryView;

    closed spec fn view(&self) -> MemoryView {
        MemoryView {
            allocs: table_of(self.alloc_map@),
            issued: self.next_id as nat,
            pointer_size: self.pointer_size,
            byte_order: self.byte_order,
        }
    }
}

/// `<[u8]>::clone_from_slice`: makes `dest` a copy of `src`. The two must
/// have the same length.
#[verifier::external_body]
fn clone_from_slice(dest: &mut [u8], src: &[u8])
    requires
        old(dest)@.len() == src@.len(),
    ensures
        final(dest)@ == src@,
{
    dest.clone_from_slice(src)
}

impl Memory {
    /// An empty memory with the given pointer size and byte order.
    pub fn with_layout(pointer_size: usize, byte_order: Endianness) -> (r: Memory)
        requires
            1 <= pointer_size <= 8,
        ensures
            r@.allocs == Map::<AllocId, AllocationView>::empty(),
            r@.issued == 0,
            r@.pointer_size == pointer_size,
            r@.byte_order == byte_order,
            r@.wf(),
    {
        let r = Memory { alloc_map: HashMap::new(), next_id: 0, pointer_size, byte_order };
        assert(r@.allocs =~= Map::<AllocId, AllocationView>::empty());
        r
    }

    /// An empty memory with the pointer size and the byte order of the
    /// machine the code runs on.
    pub fn new() -> (r: Memory)
        ensures
            r@.allocs == Map::<AllocId, AllocationView>::empty(),
            r@.issued == 0,
            r@.pointer_size as nat == vstd::layout::size_of::<usize>(),
            r@.wf(),
    {
        broadcast use vstd::layout::layout_of_primitives;

        Memory::with_layout(core::mem::size_of::<usize>(), Endianness::native())
    }

    /// The number of bytes that a stored pointer takes.
    pub fn pointer_size(&self) -> (r: usize)
        ensures
            r == self@.pointer_size,
    {
        self.pointer_size
    }

    /// The byte order of every multi-byte value in this memory.
    pub fn byte_order(&self) -> (r: Endianness)
        ensures
            r == self@.byte_order,
    {
        self.byte_order
    }

    /// Looks up an allocation.
    pub fn get(&self, id: AllocId) -> (r: EvalResult<&Allocation>)
        ensures
            match r {
                Ok(alloc) => self@.allocs.contains_key(id) && alloc@ == self@.allocs[id],
                Err(e) => !self@.allocs.contains_key(id) && e == EvalError::DanglingPointerDeref,
            },
    {
        broadcast use vstd::std_specs::hash::group_hash_axioms;

        match self.alloc_map.get(&id.0) {
            Some(alloc) => Ok(alloc),
            None => Err(EvalError::DanglingPointerDeref),
        }
    }

    /// Looks up an allocation for writing. What the caller stores through the
    /// returned reference becomes the allocation's new content.
    pub fn get_mut(&mut self, id: AllocId) -> (r: EvalResult<&mut Allocation>)
        ensures
            match r {
                Ok(alloc) => old(self)@.allocs.contains_key(id) && alloc@ == old(self)@.allocs[id]
                    && final(self)@ == (MemoryView {
                    allocs: old(self)@.allocs.insert(id, final(alloc)@),
                    ..old(self)@
                }),
                Err(e) => !old(self)@.allocs.contains_key(id) && e
                    == EvalError::DanglingPointerDeref && final(self)@ == old(self)@,
            },
    {
        broadcast use vstd::std_specs::hash::group_hash_axioms;
        broadcast use lemma_table_of_insert;
        broadcast use lemma_table_of_remove_absent;

        match self.alloc_map.entry(id.0) {
            Entry::Occupied(entry) => {
                Ok(entry.into_mut())
            },
            Entry::Vacant(_) => Err(EvalError::DanglingPointerDeref),
        }
    }

    /// The `size` bytes at `ptr`, if they are plain data.
    pub fn get_bytes(&self, ptr: Pointer, size: usize) -> (r: EvalResult<&[u8]>)
        requires
            self@.wf(),
        ensures
            match r {
                Ok(bytes) => self@.data_access(ptr, size as int) is Ok && bytes@ == self@.bytes_at(
                    ptr,
                    size as int,
                ),
                Err(e) => self@.data_access(ptr, size as int) == Err::<(), EvalError>(e),
            },
    {
        let alloc = self.get(ptr.alloc_id)?;
        let end: usize = match ptr.offset.checked_add(size) {
            Some(end) => end,
            None => { return Err(EvalError::PointerOutOfBounds); },
        };
        alloc.check_no_relocations(ptr.offset, end, self.pointer_size)?;
        Ok(vstd::slice::slice_subrange(alloc.bytes.as_slice(), ptr.offset, end))
    }

    /// The `size` bytes at `ptr` for writing, if they are plain data. What
    /// the caller stores through the returned slice becomes the content of
    /// those bytes.
    pub fn get_bytes_mut(&mut self, ptr: Pointer, size: usize) -> (r: EvalResult<&mut [u8]>)
        requires
            old(self)@.wf(),
        ensures
            match r {
                Ok(bytes) => old(self)@.data_access(ptr, size as int) is Ok && bytes@ == old(
                    self,
                )@.bytes_at(ptr, size as int) && final(self)@ == old(self)@.with_range(
                    ptr,
                    size as int,
                    final(bytes)@,
                ),
                Err(e) => old(self)@.data_access(ptr, size as int) == Err::<(), EvalError>(e)
                    && final(self)@ == old(self)@,
            },
    {
        let pointer_size: usize = self.pointer_size;
        let alloc = self.get_mut(ptr.alloc_id)?;
        proof {
            assert(old(self)@.allocs.insert(ptr.alloc_id, alloc@) =~= old(self)@.allocs);
        }
        let end: usize = match ptr.offset.checked_add(size) {
            Some(end) => end,
            None => { return Err(EvalError::PointerOutOfBounds); },
        };
        alloc.check_no_relocations(ptr.offset, end, pointer_size)?;
        let ghost before = alloc.bytes@;
        let (head, _) = alloc.bytes.as_mut_slice().split_at_mut(end);
        let (_, range) = head.split_at_mut(ptr.offset);
        proof {
            let start = ptr.offset as int;
            assert(replace_range(before, start, end as int, final(range)@) =~= (before.subrange(
                0,
                end as int,
            ).subrange(0, start) + final(range)@) + before.subrange(end as int, before.len() as int));
        }
        Ok(range)
    }

    /// Stores the plain data `src` at `ptr`.
    pub fn write_bytes(&mut self, ptr: Pointer, src: &[u8]) -> (r: EvalResult<()>)
        requires
            old(self)@.wf(),
        ensures
            r == old(self)@.data_access(ptr, src@.len() as int),
            final(self)@ == old(self)@.store(ptr, src@),
            final(self)@.wf(),
    {
        let dest = self.get_bytes_mut(ptr, src.len())?;
        clone_from_slice(dest, src);
        Ok(())
    }

    /// Reads a boolean: the byte 0 is `false` and the byte 1 is `true`.
    pub fn read_bool(&self, ptr: Pointer) -> (r: EvalResult<bool>)
        requires
            self@.wf(),
        ensures
            match r {
                Ok(b) => self@.data_access(ptr, 1) is Ok && self@.bytes_at(ptr, 1)[0] == bool_byte(
                    b,
                ),
                Err(e) => if self@.data_access(ptr, 1) is Ok {
                    e == EvalError::InvalidBool && self@.bytes_at(ptr, 1)[0] > 1
                } else {
                    self@.data_access(ptr, 1) == Err::<(), EvalError>(e)
                },
            },
    {
        let bytes = self.get_bytes(ptr, 1)?;
        let byte: u8 = bytes[0];
        if byte == 0 {
            Ok(false)
        } else if byte == 1 {
            Ok(true)
        } else {
            Err(EvalError::InvalidBool)
        }
    }

    /// Stores a boolean as one byte: 0 for `false`, 1 for `true`.
    pub fn write_bool(&mut self, ptr: Pointer, b: bool) -> (r: EvalResult<()>)
        requires
            old(self)@.wf(),
        ensures
            r == old(self)@.data_access(ptr, 1),
            final(self)@ == old(self)@.store(ptr, seq![bool_byte(b)]),
            final(self)@.wf(),
    {
        let byte: u8 = if b { 1 } else { 0 };
        let data: [u8; 1] = [byte];
        assert(data@ =~= seq![bool_byte(b)]);
        self.write_bytes(ptr, data.as_slice())
    }

    /// Reads a signed integer of `size` bytes.
    pub fn read_int(&self, ptr: Pointer, size: usize) -> (r: EvalResult<i64>)
        requires
            self@.wf(),
            1 <= size <= 8,
        ensures
            match r {
                Ok(n) => self@.data_access(ptr, size as int) is Ok && n == decode_int(
                    self@.byte_order,
                    self@.bytes_at(ptr, size as int),
                ),
                Err(e) => self@.data_access(ptr, size as int) == Err::<(), EvalError>(e),
            },
    {
        let bytes = self.get_bytes(ptr, size)?;
        assert(bytes@.subrange(0, size as int) =~= bytes@);
        Ok(self.byte_order.read_int(bytes, size))
    }

    /// Stores a signed integer in `size` bytes of two's complement. A number
    /// outside the range of `size` bytes loses its high bytes.
    pub fn write_int(&mut self, ptr: Pointer, n: i64, size: usize) -> (r: EvalResult<()>)
        requires
            old(self)@.wf(),
            1 <= size <= 8,
        ensures
            r == old(self)@.data_access(ptr, size as int),
            final(self)@ == old(self)@.store(
                ptr,
                encode_int(old(self)@.byte_order, n as int, size as nat),
            ),
            final(self)@.wf(),
    {
        let order = self.byte_order;
        proof {
            lemma_encode_int_len(order, n as int, size as nat);
        }
        let bytes = self.get_bytes_mut(ptr, size)?;
        order.write_int(bytes, n, size);
        assert(final(bytes)@ =~= encode_int(order, n as int, size as nat));
        Ok(())
    }

    /// Reads an unsigned integer of `size` bytes.
    pub fn read_uint(&self, ptr: Pointer, size: usize) -> (r: EvalResult<u64>)
        requires
            self@.wf(),
            1 <= size <= 8,
        ensures
            match r {
                Ok(n) => self@.data_access(ptr, size as int) is Ok && n == decode_uint(
                    self@.byte_order,
                    self@.bytes_at(ptr, size as int),
                ),
                Err(e) => self@.data_access(ptr, size as int) == Err::<(), EvalError>(e),
            },
    {
        let bytes = self.get_bytes(ptr, size)?;
        assert(bytes@.subrange(0, size as int) =~= bytes@);
        Ok(self.byte_order.read_uint(bytes, size))
    }

    /// Stores an unsigned integer in `size` bytes. The number must fit.
    pub fn write_uint(&mut self, ptr: Pointer, n: u64, size: usize) -> (r: EvalResult<()>)
        requires
            old(self)@.wf(),
            1 <= size <= 8,
            n < pow256(size as nat),
        ensures
            r == old(self)@.data_access(ptr, size as int),
            final(self)@ == old(self)@.store(
                ptr,
                encode_uint(old(self)@.byte_order, n as nat, size as nat),
            ),
            final(self)@.wf(),
    {
        let order = self.byte_order;
        proof {
            lemma_encode_uint_len(order, n as nat, size as nat);
        }
        let bytes = self.get_bytes_mut(ptr, size)?;
        order.write_uint(bytes, n, size);
        assert(final(bytes)@ =~= encode_uint(order, n as nat, size as nat));
        Ok(())
    }

    /// Reads a signed integer of the pointer size.
    pub fn read_isize(&self, ptr: Pointer) -> (r: EvalResult<i64>)
        requires
            self@.wf(),
        ensures
            match r {
                Ok(n) => self@.data_access(ptr, self@.pointer_size as int) is Ok && n
                    == decode_int(
                    self@.byte_order,
                    self@.bytes_at(ptr, self@.pointer_size as int),
                ),
                Err(e) => self@.data_access(ptr, self@.pointer_size as int) == Err::<
                    (),
                    EvalError,
                >(e),
            },
    {
        self.read_int(ptr, self.pointer_size)
    }

    /// Stores a signed integer in as many bytes as a pointer takes.
    pub fn write_isize(&mut self, ptr: Pointer, n: i64) -> (r: EvalResult<()>)
        requires
            old(self)@.wf(),
        ensures
            r == old(self)@.data_access(ptr, old(self)@.pointer_size as int),
            final(self)@ == old(self)@.store(
                ptr,
                encode_int(old(self)@.byte_order, n as int, old(self)@.pointer_size as nat),
            ),
            final(self)@.wf(),
    {
        let size: usize = self.pointer_size;
        self.write_int(ptr, n, size)
    }

    /// Reads an unsigned integer of the pointer size.
    pub fn read_usize(&self, ptr: Pointer) -> (r: EvalResult<u64>)
        requires
            self@.wf(),
        ensures
            match r {
                Ok(n) => self@.data_access(ptr, self@.pointer_size as int) is Ok && n
                    == decode_uint(
                    self@.byte_order,
                    self@.bytes_at(ptr, self@.pointer_size as int),
                ),
                Err(e) => self@.data_access(ptr, self@.pointer_size as int) == Err::<
                    (),
                    EvalError,
                >(e),
            },
    {
        self.read_uint(ptr, self.pointer_size)
    }

    /// Stores an unsigned integer in as many bytes as a pointer takes. The
    /// number must fit.
    pub fn write_usize(&mut self, ptr: Pointer, n: u64) -> (r: EvalResult<()>)
        requires
            old(self)@.wf(),
            n < pow256(old(self)@.pointer_size as nat),
        ensures
            r == old(self)@.data_access(ptr, old(self)@.pointer_size as int),
            final(self)@ == old(self)@.store(
                ptr,
                encode_uint(old(self)@.byte_order, n as nat, old(self)@.pointer_size as nat),
            ),
            final(self)@.wf(),
    {
        let size: usize = self.pointer_size;
        self.write_uint(ptr, n, size)
    }

    /// Creates an allocation of `size` zero bytes without relocations, under
    /// an identifier that was never used before, and returns a pointer to its
    /// first byte. The counter of identifiers must not be exhausted.
    pub fn allocate(&mut self, size: usize) -> (r: Pointer)
        requires
            old(self)@.wf(),
            old(self)@.issued < u64::MAX,
        ensures
            r == (Pointer { alloc_id: AllocId(old(self)@.issued as u64), offset: 0 }),
            !old(self)@.allocs.contains_key(r.alloc_id),
            final(self)@ == (MemoryView {
                allocs: old(self)@.allocs.insert(
                    r.alloc_id,
                    AllocationView {
                        bytes: Seq::new(size as nat, |i: int| 0u8),
                        relocations: Map::empty(),
                    },
                ),
                issued: old(self)@.issued + 1,
                ..old(self)@
            }),
            final(self)@.wf(),
    {
        broadcast use vstd::std_specs::hash::group_hash_axioms;
        broadcast use lemma_table_of_insert;

        let id = AllocId(self.next_id);
        let alloc = Allocation { bytes: vec![0u8; size], relocations: BTreeMap::new() };
        assert(alloc.bytes@ =~= Seq::new(size as nat, |i: int| 0u8));
        assert(!old(self)@.allocs.contains_key(id));
        self.alloc_map.insert(self.next_id, alloc);
        self.next_id = self.next_id + 1;
        Pointer { alloc_id: id, offset: 0 }
    }

    /// Reads the pointer stored at `ptr`.
    pub fn read_ptr(&self, ptr: Pointer) -> (r: EvalResult<Pointer>)
        requires
            self@.wf(),
        ensures
            r == self@.load_ptr(ptr),
    {
        broadcast use vstd::std_specs::btree::group_btree_axioms;

        let alloc = self.get(ptr.alloc_id)?;
        let end: usize = match ptr.offset.checked_add(self.pointer_size) {
            Some(end) => end,
            None => { return Err(EvalError::PointerOutOfBounds); },
        };
        alloc.check_relocation_edges(ptr.offset, end, self.pointer_size)?;
        let bytes = vstd::slice::slice_subrange(alloc.bytes.as_slice(), ptr.offset, end);
        assert(bytes@.subrange(0, self.pointer_size as int) =~= bytes@);
        let value: u64 = self.byte_order.read_uint(bytes, self.pointer_size);
        let offset: usize = #[verifier::truncate] (value as usize);
        match alloc.relocations.get(&ptr.offset) {
            Some(alloc_id) => Ok(Pointer { alloc_id: *alloc_id, offset }),
            None => Err(EvalError::ReadBytesAsPointer),
        }
    }

    /// Stores the pointer `ptr_val` at `dest`: its offset in the bytes, its
    /// allocation in a relocation at `dest`. A pointer that is already stored
    /// at `dest` is overwritten; one that the range would cut in two is not,
    /// and the write is refused. The offset must fit in the pointer size.
    pub fn write_ptr(&mut self, dest: Pointer, ptr_val: Pointer) -> (r: EvalResult<()>)
        requires
            old(self)@.wf(),
            ptr_val.offset < pow256(old(self)@.pointer_size as nat),
        ensures
            r == old(self)@.edge_access(dest, old(self)@.pointer_size as int),
            final(self)@ == old(self)@.store_ptr(dest, ptr_val),
            final(self)@.wf(),
    {
        broadcast use vstd::std_specs::btree::group_btree_axioms;

        let size: usize = self.pointer_size;
        let order = self.byte_order;
        proof {
            lemma_encode_uint_len(order, ptr_val.offset as nat, size as nat);
        }
        let alloc = self.get_mut(dest.alloc_id)?;
        let ghost before = alloc@;
        proof {
            assert(old(self)@.allocs.insert(dest.alloc_id, before) =~= old(self)@.allocs);
        }
        let end: usize = match dest.offset.checked_add(size) {
            Some(end) => end,
            None => { return Err(EvalError::PointerOutOfBounds); },
        };
        alloc.check_relocation_edges(dest.offset, end, size)?;
        let (head, _) = alloc.bytes.as_mut_slice().split_at_mut(end);
        let (_, range) = head.split_at_mut(dest.offset);
        order.write_uint(range, ptr_val.offset as u64, size);
        alloc.relocations.insert(dest.offset, ptr_val.alloc_id);
        proof {
            let stored = old(self)@.store_ptr(dest, ptr_val);
            let data = old(self)@.offset_bytes(ptr_val.offset);
            assert(alloc.bytes@ =~= replace_range(
                before.bytes,
                dest.offset as int,
                end as int,
                data,
            ));
            assert(stored.allocs =~= old(self)@.allocs.insert(dest.alloc_id, alloc@));
        }
        Ok(())
    }

    /// Stores a primitive value in the encoding of its kind. An abstract
    /// pointer cannot be stored.
    pub fn write_primval(&mut self, ptr: Pointer, val: PrimVal) -> (r: EvalResult<()>)
        requires
            old(self)@.wf(),
            !(val is AbstractPtr),
        ensures
            r == old(self)@.data_access(ptr, val.bytes(old(self)@.byte_order).len() as int),
            final(self)@ == old(self)@.store(ptr, val.bytes(old(self)@.byte_order)),
            final(self)@.wf(),
    {
        proof {
            let order = self.byte_order;
            lemma_pow256_values();
            match val {
                PrimVal::Bool(b) => {},
                PrimVal::I8(n) => lemma_encode_int_len(order, n as int, 1),
                PrimVal::I16(n) => lemma_encode_int_len(order, n as int, 2),
                PrimVal::I32(n) => lemma_encode_int_len(order, n as int, 4),
                PrimVal::I64(n) => lemma_encode_int_len(order, n as int, 8),
                PrimVal::U8(n) => lemma_encode_uint_len(order, n as nat, 1),
                PrimVal::U16(n) => lemma_encode_uint_len(order, n as nat, 2),
                PrimVal::U32(n) => lemma_encode_uint_len(order, n as nat, 4),
                PrimVal::U64(n) => lemma_encode_uint_len(order, n as nat, 8),
                PrimVal::IntegerPtr(n) => lemma_encode_uint_len(order, n as nat, 8),
                PrimVal::AbstractPtr(_) => {},
            }
        }
        match val {
            PrimVal::Bool(b) => self.write_bool(ptr, b),
            PrimVal::I8(n) => self.write_int(ptr, n as i64, 1),
            PrimVal::I16(n) => self.write_int(ptr, n as i64, 2),
            PrimVal::I32(n) => self.write_int(ptr, n as i64, 4),
            PrimVal::I64(n) => self.write_int(ptr, n, 8),
            PrimVal::U8(n) => self.write_uint(ptr, n as u64, 1),
            PrimVal::U16(n) => self.write_uint(ptr, n as u64, 2),
            PrimVal::U32(n) => self.write_uint(ptr, n as u64, 4),
            PrimVal::U64(n) => self.write_uint(ptr, n, 8),
            PrimVal::IntegerPtr(n) => self.write_uint(ptr, n, 8),
            PrimVal::AbstractPtr(_) => vstd::pervasive::unreached(),
        }
    }

    /// Copies `size` bytes, and the pointers stored in them, from `src` to
    /// `dest`. The two ranges may lie in one allocation and overlap: the
    /// destination receives what the source held before the call.
    pub fn copy(&mut self, src: Pointer, dest: Pointer, size: usize) -> (r: EvalResult<()>)
        requires
            old(self)@.wf(),
        ensures
            r == old(self)@.copy_access(src, dest, size as int),
            final(self)@ == old(self)@.copy(src, dest, size as int),
            final(self)@.wf(),
    {
        broadcast use vstd::std_specs::btree::group_btree_axioms;

        let pointer_size: usize = self.pointer_size;
        let source = self.get(src.alloc_id)?;
        let ghost from = source@;
        let src_end: usize = match src.offset.checked_add(size) {
            Some(end) => end,
            None => { return Err(EvalError::PointerOutOfBounds); },
        };
        source.check_relocation_edges(src.offset, src_end, pointer_size)?;
        let src_bytes: Vec<u8> = vstd::slice::slice_to_vec(
            vstd::slice::slice_subrange(source.bytes.as_slice(), src.offset, src_end),
        );
        let mut found: Vec<(usize, AllocId)> = Vec::new();
        for entry in it: source.relocations.iter()
            invariant
                src_end == src.offset + size,
                from.relocations == source.relocations@,
                it.seq().len() == source.relocations@.dom().len(),
                forall|i: int|
                    0 <= i < it.seq().len() ==> source.relocations@.contains_key(*it.seq()[i].0)
                        && source.relocations@[*it.seq()[i].0] == *it.seq()[i].1,
                forall|k: usize|
                    source.relocations@.contains_key(k) ==> it.seq().contains(
                        (&k, &source.relocations@[k]),
                    ),
                holds_relocations_of(found@, from.relocations, src.offset as int, src_end as int),
                forall|i: int|
                    0 <= i < it.index() && src.offset <= *(#[trigger] it.seq()[i]).0 < src_end
                        ==> holds_key(found@, *it.seq()[i].0),
        {
            let k: usize = *entry.0;
            if src.offset <= k && k < src_end {
                let ghost earlier = found@;
                found.push((k, *entry.1));
                proof {
                    assert(found@[earlier.len() as int].0 == k);
                    assert forall|key: usize| holds_key(earlier, key) implies holds_key(
                        found@,
                        key,
                    ) by {
                        let j = choose|j: int| 0 <= j < earlier.len() && (#[trigger] earlier[j]).0 == key;
                        assert(found@[j].0 == key);
                    }
                }
            }
        }
        proof {
            assert forall|k: usize|
                from.relocations.contains_key(k) && src.offset <= k < src_end implies holds_key(
                found@,
                k,
            ) by {
                assert(source.relocations@.contains_key(k));
            }
        }
        let dest_bytes = self.get_bytes_mut(dest, size)?;
        clone_from_slice(dest_bytes, src_bytes.as_slice());
        let ghost to = old(self)@.allocs[dest.alloc_id];
        let ghost written = self@;
        let target = self.get_mut(dest.alloc_id)?;
        let ghost moved = rehomed(from.relocations, src.offset as int, dest.offset as int, size as int);
        proof {
            assert(dest.offset + size <= to.bytes.len() <= usize::MAX);
            assert forall|k: usize| to.relocations.contains_key(k) implies !moved.contains_key(
                k,
            ) by {
                if dest.offset <= k < dest.offset + size {
                    assert(to.overlaps_relocation(
                        dest.offset as int,
                        dest.offset + size,
                        pointer_size as int,
                    ));
                }
            }
        }
        let mut j: usize = 0;
        while j < found.len()
            invariant
                j <= found.len(),
                src_end == src.offset + size,
                dest.offset + size <= usize::MAX,
                moved == rehomed(
                    from.relocations,
                    src.offset as int,
                    dest.offset as int,
                    size as int,
                ),
                target.bytes@ == written.allocs[dest.alloc_id].bytes,
                holds_relocations_of(found@, from.relocations, src.offset as int, src_end as int),
                forall|k: usize| to.relocations.contains_key(k) ==> !moved.contains_key(k),
                forall|k: usize| #[trigger]
                    target.relocations@.contains_key(k) <==> (to.relocations.contains_key(k)
                        || lands_at(found@, j as int, src.offset as int, dest.offset as int, k)),
                forall|k: usize| #[trigger]
                    target.relocations@.contains_key(k) ==> target.relocations@[k] == (if moved.contains_key(
                        k,
                    ) {
                        moved[k]
                    } else {
                        to.relocations[k]
                    }),
            decreases found.len() - j,
        {
            let (k, id) = found[j];
            let at: usize = dest.offset + (k - src.offset);
            let ghost before = target.relocations@;
            target.relocations.insert(at, id);
            proof {
                let s = src.offset as int;
                let d = dest.offset as int;
                assert(target.relocations@ == before.insert(at, id));
                assert(found@[j as int].0 == k);
                assert((at - dest.offset + src.offset) as usize == k);
                assert(moved.contains_key(at));
                assert(lands_at(found@, j + 1, s, d, at));
                assert forall|key: usize| lands_at(found@, j as int, s, d, key) implies lands_at(
                    found@,
                    j + 1,
                    s,
                    d,
                    key,
                ) by {
                    let i = choose|i: int|
                        0 <= i < j && d + ((#[trigger] found@[i]).0 - s) == key;
                    assert(0 <= i < j + 1 && d + (found@[i].0 - s) == key);
                }
                assert forall|key: usize| lands_at(found@, j + 1, s, d, key) implies lands_at(
                    found@,
                    j as int,
                    s,
                    d,
                    key,
                ) || key == at by {
                    let i = choose|i: int|
                        0 <= i < j + 1 && d + ((#[trigger] found@[i]).0 - s) == key;
                    if i < j {
                        assert(0 <= i < j && d + (found@[i].0 - s) == key);
                    }
                }
                assert forall|key: usize| #[trigger]
                    target.relocations@.contains_key(key) <==> (to.relocations.contains_key(key)
                        || lands_at(found@, j + 1, s, d, key)) by {
                    if key != at {
                        assert(target.relocations@.contains_key(key) == before.contains_key(key));
                    }
                }
            }
            j = j + 1;
        }
        proof {
            let copied = old(self)@.copy(src, dest, size as int);
            let merged = to.relocations.union_prefer_right(moved);
            let s = src.offset as int;
            let d = dest.offset as int;
            assert forall|k: usize| moved.contains_key(k) implies lands_at(
                found@,
                found@.len() as int,
                s,
                d,
                k,
            ) by {
                let from_k = (k - d + s) as usize;
                assert(holds_key(found@, from_k));
                let i = choose|i: int| 0 <= i < found@.len() && (#[trigger] found@[i]).0 == from_k;
                assert(d + (found@[i].0 - s) == k);
            }
            assert forall|k: usize| lands_at(found@, found@.len() as int, s, d, k) implies moved.contains_key(
                k,
            ) by {
                let i = choose|i: int|
                    0 <= i < found@.len() && d + ((#[trigger] found@[i]).0 - s) == k;
                assert((k - d + s) as usize == found@[i].0);
            }
            assert(target.relocations@ =~= merged);
            assert(copied.allocs =~= written.allocs.insert(dest.alloc_id, target@));
        }
        Ok(())
    }
}

} // verus!
