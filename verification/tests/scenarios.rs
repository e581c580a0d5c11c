use memory::{EvalError, Memory};

#[test]
fn write_u32_then_read_it_back() {
    let mut mem = Memory::new();
    let p = mem.allocate(16);
    assert_eq!(mem.write_int(p, 42, 4), Ok(()));
    assert_eq!(mem.read_int(p, 4), Ok(42));
}

#[test]
fn copy_carries_a_pointer_to_a_fresh_allocation() {
    let mut mem = Memory::new();
    let target = mem.allocate(4);
    let p = mem.allocate(16);
    assert_eq!(mem.write_int(p, 42, 4), Ok(()));
    assert_eq!(mem.write_ptr(p.offset(8), target.offset(2)), Ok(()));
    let fresh = mem.allocate(16);
    assert_eq!(mem.copy(p, fresh, 16), Ok(()));
    assert_eq!(mem.read_ptr(fresh.offset(8)), Ok(target.offset(2)));
    assert_eq!(mem.read_int(fresh, 4), Ok(42));
    assert_eq!(mem.read_int(fresh.offset(8), 8), Err(EvalError::ReadPointerAsBytes));
}
