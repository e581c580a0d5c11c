use memory::{Endianness, EvalError, Memory};

fn little() -> Memory {
    Memory::with_layout(8, Endianness::Little)
}

#[test]
fn copy_between_allocations_moves_the_bytes() {
    let mut mem = little();
    let a = mem.allocate(8);
    let b = mem.allocate(8);
    assert_eq!(mem.write_bytes(a, &[1, 2, 3, 4, 5, 6, 7, 8]), Ok(()));
    assert_eq!(mem.write_bytes(b, &[9; 8]), Ok(()));
    assert_eq!(mem.copy(a.offset(2), b.offset(1), 4), Ok(()));
    assert_eq!(mem.get(b.alloc_id).unwrap().bytes, vec![9, 3, 4, 5, 6, 9, 9, 9]);
    assert_eq!(mem.get(a.alloc_id).unwrap().bytes, vec![1, 2, 3, 4, 5, 6, 7, 8]);
}

#[test]
fn copy_rehomes_an_embedded_pointer() {
    let mut mem = little();
    let target = mem.allocate(64);
    let a = mem.allocate(32);
    let b = mem.allocate(32);
    assert_eq!(mem.write_uint(a.offset(4), 0xbeef, 2), Ok(()));
    assert_eq!(mem.write_ptr(a.offset(8), target.offset(33)), Ok(()));
    assert_eq!(mem.copy(a.offset(4), b.offset(10), 16), Ok(()));
    assert_eq!(mem.read_uint(b.offset(10), 2), Ok(0xbeef));
    assert_eq!(mem.read_ptr(b.offset(14)), Ok(target.offset(33)));
    let dest = mem.get(b.alloc_id).unwrap();
    assert_eq!(dest.relocations.len(), 1);
    assert_eq!(dest.relocations.get(&14), Some(&target.alloc_id));
    assert_eq!(dest.bytes[14], 33);
    assert_eq!(mem.read_ptr(a.offset(8)), Ok(target.offset(33)));
}

#[test]
fn copy_rehomes_every_pointer_in_the_range() {
    let mut mem = little();
    let t1 = mem.allocate(8);
    let t2 = mem.allocate(8);
    let a = mem.allocate(32);
    let b = mem.allocate(40);
    assert_eq!(mem.write_ptr(a, t1.offset(1)), Ok(()));
    assert_eq!(mem.write_ptr(a.offset(8), t2.offset(2)), Ok(()));
    assert_eq!(mem.write_ptr(a.offset(24), t1.offset(3)), Ok(()));
    assert_eq!(mem.copy(a, b.offset(8), 32), Ok(()));
    assert_eq!(mem.read_ptr(b.offset(8)), Ok(t1.offset(1)));
    assert_eq!(mem.read_ptr(b.offset(16)), Ok(t2.offset(2)));
    assert_eq!(mem.read_ptr(b.offset(32)), Ok(t1.offset(3)));
    assert_eq!(mem.get(b.alloc_id).unwrap().relocations.len(), 3);
    assert_eq!(mem.read_uint(b, 8), Ok(0));
    assert_eq!(mem.read_ptr(b.offset(24)), Err(EvalError::ReadBytesAsPointer));
}

#[test]
fn copy_takes_only_the_pointers_of_its_range() {
    let mut mem = little();
    let t = mem.allocate(8);
    let a = mem.allocate(32);
    let b = mem.allocate(32);
    assert_eq!(mem.write_ptr(a, t), Ok(()));
    assert_eq!(mem.write_ptr(a.offset(8), t.offset(1)), Ok(()));
    assert_eq!(mem.write_ptr(a.offset(16), t.offset(2)), Ok(()));
    assert_eq!(mem.copy(a.offset(8), b, 8), Ok(()));
    assert_eq!(mem.get(b.alloc_id).unwrap().relocations.len(), 1);
    assert_eq!(mem.read_ptr(b), Ok(t.offset(1)));
}

#[test]
fn copy_keeps_the_pointers_of_the_destination_outside_the_range() {
    let mut mem = little();
    let t = mem.allocate(8);
    let a = mem.allocate(16);
    let b = mem.allocate(32);
    assert_eq!(mem.write_ptr(b.offset(24), t.offset(5)), Ok(()));
    assert_eq!(mem.write_ptr(a, t.offset(6)), Ok(()));
    assert_eq!(mem.copy(a, b.offset(8), 16), Ok(()));
    assert_eq!(mem.read_ptr(b.offset(24)), Ok(t.offset(5)));
    assert_eq!(mem.read_ptr(b.offset(8)), Ok(t.offset(6)));
    assert_eq!(mem.get(b.alloc_id).unwrap().relocations.len(), 2);
}

#[test]
fn copy_refuses_a_source_range_that_cuts_a_pointer() {
    let mut mem = little();
    let t = mem.allocate(8);
    let a = mem.allocate(32);
    let b = mem.allocate(32);
    assert_eq!(mem.write_ptr(a.offset(8), t), Ok(()));
    assert_eq!(mem.copy(a.offset(12), b, 8), Err(EvalError::ReadPointerAsBytes));
    assert_eq!(mem.copy(a.offset(4), b, 8), Err(EvalError::ReadPointerAsBytes));
    assert_eq!(mem.copy(a.offset(9), b, 20), Err(EvalError::ReadPointerAsBytes));
    assert_eq!(mem.copy(a, b, 15), Err(EvalError::ReadPointerAsBytes));
    assert_eq!(mem.get(b.alloc_id).unwrap().bytes, vec![0; 32]);
    assert!(mem.get(b.alloc_id).unwrap().relocations.is_empty());
    assert_eq!(mem.copy(a, b, 16), Ok(()));
    assert_eq!(mem.copy(a.offset(8), b, 8), Ok(()));
    assert_eq!(mem.copy(a, b.offset(16), 8), Ok(()));
    assert_eq!(mem.copy(a.offset(16), b.offset(24), 8), Ok(()));
}

#[test]
fn copy_refuses_a_destination_that_holds_a_pointer() {
    let mut mem = little();
    let t = mem.allocate(8);
    let a = mem.allocate(32);
    let b = mem.allocate(32);
    assert_eq!(mem.write_ptr(b.offset(8), t), Ok(()));
    assert_eq!(mem.write_bytes(a, &[7; 32]), Ok(()));
    assert_eq!(mem.copy(a, b, 32), Err(EvalError::ReadPointerAsBytes));
    assert_eq!(mem.copy(a, b.offset(8), 8), Err(EvalError::ReadPointerAsBytes));
    assert_eq!(mem.copy(a, b.offset(15), 1), Err(EvalError::ReadPointerAsBytes));
    assert_eq!(mem.copy(a, b, 9), Err(EvalError::ReadPointerAsBytes));
    assert_eq!(mem.read_ptr(b.offset(8)), Ok(t));
    assert_eq!(mem.read_uint(b, 8), Ok(0));
    assert_eq!(mem.copy(a, b, 8), Ok(()));
    assert_eq!(mem.copy(a, b.offset(16), 16), Ok(()));
}

#[test]
fn copy_reports_the_source_before_the_destination() {
    let mut mem = little();
    let t = mem.allocate(8);
    let a = mem.allocate(16);
    let b = mem.allocate(16);
    assert_eq!(mem.write_ptr(a, t), Ok(()));
    assert_eq!(mem.copy(a.offset(4), b.offset(12), 8), Err(EvalError::ReadPointerAsBytes));
    assert_eq!(mem.copy(a.offset(12), b.offset(12), 8), Err(EvalError::PointerOutOfBounds));
    assert_eq!(mem.copy(a.offset(8), b.offset(12), 8), Err(EvalError::PointerOutOfBounds));
}

#[test]
fn copy_forward_within_one_allocation() {
    let mut mem = little();
    let a = mem.allocate(8);
    assert_eq!(mem.write_bytes(a, &[1, 2, 3, 4, 5, 6, 7, 8]), Ok(()));
    assert_eq!(mem.copy(a, a.offset(2), 5), Ok(()));
    assert_eq!(mem.get(a.alloc_id).unwrap().bytes, vec![1, 2, 1, 2, 3, 4, 5, 8]);
}

#[test]
fn copy_backward_within_one_allocation() {
    let mut mem = little();
    let a = mem.allocate(8);
    assert_eq!(mem.write_bytes(a, &[1, 2, 3, 4, 5, 6, 7, 8]), Ok(()));
    assert_eq!(mem.copy(a.offset(2), a, 5), Ok(()));
    assert_eq!(mem.get(a.alloc_id).unwrap().bytes, vec![3, 4, 5, 6, 7, 6, 7, 8]);
}

#[test]
fn copy_onto_itself_changes_nothing() {
    let mut mem = little();
    let a = mem.allocate(4);
    assert_eq!(mem.write_bytes(a, &[1, 2, 3, 4]), Ok(()));
    assert_eq!(mem.copy(a, a, 4), Ok(()));
    assert_eq!(mem.get(a.alloc_id).unwrap().bytes, vec![1, 2, 3, 4]);
}

#[test]
fn copy_within_one_allocation_keeps_the_source_pointer() {
    let mut mem = little();
    let t = mem.allocate(8);
    let a = mem.allocate(32);
    assert_eq!(mem.write_ptr(a, t.offset(4)), Ok(()));
    assert_eq!(mem.copy(a, a.offset(16), 8), Ok(()));
    assert_eq!(mem.read_ptr(a), Ok(t.offset(4)));
    assert_eq!(mem.read_ptr(a.offset(16)), Ok(t.offset(4)));
    assert_eq!(mem.get(a.alloc_id).unwrap().relocations.len(), 2);
}

#[test]
fn copy_of_nothing() {
    let mut mem = little();
    let a = mem.allocate(4);
    let b = mem.allocate(4);
    assert_eq!(mem.write_bytes(b, &[1, 2, 3, 4]), Ok(()));
    assert_eq!(mem.copy(a.offset(4), b.offset(2), 0), Ok(()));
    assert_eq!(mem.get(b.alloc_id).unwrap().bytes, vec![1, 2, 3, 4]);
}

#[test]
fn copy_with_four_byte_pointers() {
    let mut mem = Memory::with_layout(4, Endianness::Big);
    let t = mem.allocate(8);
    let a = mem.allocate(16);
    let b = mem.allocate(16);
    assert_eq!(mem.write_ptr(a.offset(4), t.offset(7)), Ok(()));
    assert_eq!(mem.copy(a.offset(4), b.offset(12), 4), Ok(()));
    assert_eq!(mem.read_ptr(b.offset(12)), Ok(t.offset(7)));
    assert_eq!(mem.get(b.alloc_id).unwrap().bytes[12..], [0, 0, 0, 7]);
    assert_eq!(mem.copy(a.offset(5), b, 4), Err(EvalError::ReadPointerAsBytes));
    assert_eq!(mem.copy(a.offset(8), b, 4), Ok(()));
}
