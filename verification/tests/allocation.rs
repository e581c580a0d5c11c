use memory::{AllocId, Allocation, EvalError};
use std::collections::BTreeMap;

fn allocation(len: usize, relocations: &[usize]) -> Allocation {
    let mut map = BTreeMap::new();
    for (i, offset) in relocations.iter().enumerate() {
        map.insert(*offset, AllocId(i as u64));
    }
    Allocation { bytes: vec![0; len], relocations: map }
}

#[test]
fn check_bounds_accepts_both_ends_up_to_the_length() {
    let alloc = allocation(16, &[]);
    assert_eq!(alloc.check_bounds(0, 0), Ok(()));
    assert_eq!(alloc.check_bounds(0, 16), Ok(()));
    assert_eq!(alloc.check_bounds(16, 16), Ok(()));
    assert_eq!(alloc.check_bounds(4, 12), Ok(()));
}

#[test]
fn check_bounds_refuses_an_end_past_the_length() {
    let alloc = allocation(16, &[]);
    assert_eq!(alloc.check_bounds(0, 17), Err(EvalError::PointerOutOfBounds));
    assert_eq!(alloc.check_bounds(17, 4), Err(EvalError::PointerOutOfBounds));
    assert_eq!(alloc.check_bounds(usize::MAX, 0), Err(EvalError::PointerOutOfBounds));
}

#[test]
fn check_bounds_does_not_order_start_and_end() {
    let alloc = allocation(16, &[]);
    assert_eq!(alloc.check_bounds(12, 4), Ok(()));
}

#[test]
fn check_bounds_of_an_empty_allocation() {
    let alloc = allocation(0, &[]);
    assert_eq!(alloc.check_bounds(0, 0), Ok(()));
    assert_eq!(alloc.check_bounds(0, 1), Err(EvalError::PointerOutOfBounds));
}

#[test]
fn count_is_zero_without_relocations() {
    let alloc = allocation(32, &[]);
    assert_eq!(alloc.count_overlapping_relocations(0, 32, 8), 0);
}

#[test]
fn count_takes_relocations_inside_the_range() {
    let alloc = allocation(64, &[0, 8, 16, 40]);
    assert_eq!(alloc.count_overlapping_relocations(0, 64, 8), 4);
    assert_eq!(alloc.count_overlapping_relocations(8, 24, 8), 2);
    assert_eq!(alloc.count_overlapping_relocations(7, 24, 8), 3);
    assert_eq!(alloc.count_overlapping_relocations(17, 40, 8), 1);
    assert_eq!(alloc.count_overlapping_relocations(24, 40, 8), 0);
    assert_eq!(alloc.count_overlapping_relocations(24, 41, 8), 1);
}

#[test]
fn count_widens_the_range_by_a_pointer_less_one() {
    let alloc = allocation(64, &[10]);
    assert_eq!(alloc.count_overlapping_relocations(17, 20, 8), 1);
    assert_eq!(alloc.count_overlapping_relocations(18, 20, 8), 0);
    assert_eq!(alloc.count_overlapping_relocations(13, 20, 4), 1);
    assert_eq!(alloc.count_overlapping_relocations(14, 20, 4), 0);
    assert_eq!(alloc.count_overlapping_relocations(10, 11, 1), 1);
    assert_eq!(alloc.count_overlapping_relocations(11, 12, 1), 0);
}

#[test]
fn count_stops_widening_at_offset_zero() {
    let alloc = allocation(64, &[0]);
    assert_eq!(alloc.count_overlapping_relocations(3, 5, 8), 1);
    assert_eq!(alloc.count_overlapping_relocations(7, 8, 8), 1);
    assert_eq!(alloc.count_overlapping_relocations(8, 9, 8), 0);
}

#[test]
fn count_leaves_out_a_relocation_at_the_end() {
    let alloc = allocation(64, &[20]);
    assert_eq!(alloc.count_overlapping_relocations(0, 20, 8), 0);
    assert_eq!(alloc.count_overlapping_relocations(0, 21, 8), 1);
}

#[test]
fn count_of_a_point_sees_only_pointers_that_began_before_it() {
    let alloc = allocation(64, &[20]);
    assert_eq!(alloc.count_overlapping_relocations(20, 20, 8), 0);
    assert_eq!(alloc.count_overlapping_relocations(21, 21, 8), 1);
    assert_eq!(alloc.count_overlapping_relocations(27, 27, 8), 1);
    assert_eq!(alloc.count_overlapping_relocations(28, 28, 8), 0);
}

#[test]
fn count_of_a_range_that_runs_backwards_is_zero() {
    let alloc = allocation(64, &[20]);
    assert_eq!(alloc.count_overlapping_relocations(40, 10, 8), 0);
}

#[test]
fn no_relocations_check_passes_on_plain_data() {
    let alloc = allocation(64, &[20]);
    assert_eq!(alloc.check_no_relocations(0, 20, 8), Ok(()));
    assert_eq!(alloc.check_no_relocations(28, 64, 8), Ok(()));
    assert_eq!(alloc.check_no_relocations(28, 28, 8), Ok(()));
}

#[test]
fn no_relocations_check_refuses_any_byte_of_a_pointer() {
    let alloc = allocation(64, &[20]);
    assert_eq!(alloc.check_no_relocations(20, 28, 8), Err(EvalError::ReadPointerAsBytes));
    assert_eq!(alloc.check_no_relocations(27, 28, 8), Err(EvalError::ReadPointerAsBytes));
    assert_eq!(alloc.check_no_relocations(0, 21, 8), Err(EvalError::ReadPointerAsBytes));
    assert_eq!(alloc.check_no_relocations(0, 64, 8), Err(EvalError::ReadPointerAsBytes));
}

#[test]
fn no_relocations_check_tests_the_bounds_first() {
    let alloc = allocation(64, &[20]);
    assert_eq!(alloc.check_no_relocations(20, 65, 8), Err(EvalError::PointerOutOfBounds));
}

#[test]
fn edges_check_lets_whole_pointers_pass() {
    let alloc = allocation(64, &[8, 20]);
    assert_eq!(alloc.check_relocation_edges(0, 64, 8), Ok(()));
    assert_eq!(alloc.check_relocation_edges(8, 28, 8), Ok(()));
    assert_eq!(alloc.check_relocation_edges(20, 28, 8), Ok(()));
    assert_eq!(alloc.check_relocation_edges(16, 20, 8), Ok(()));
}

#[test]
fn edges_check_refuses_a_pointer_cut_at_the_start() {
    let alloc = allocation(64, &[8, 20]);
    assert_eq!(alloc.check_relocation_edges(9, 64, 8), Err(EvalError::ReadPointerAsBytes));
    assert_eq!(alloc.check_relocation_edges(15, 64, 8), Err(EvalError::ReadPointerAsBytes));
    assert_eq!(alloc.check_relocation_edges(27, 64, 8), Err(EvalError::ReadPointerAsBytes));
}

#[test]
fn edges_check_refuses_a_pointer_cut_at_the_end() {
    let alloc = allocation(64, &[8, 20]);
    assert_eq!(alloc.check_relocation_edges(0, 9, 8), Err(EvalError::ReadPointerAsBytes));
    assert_eq!(alloc.check_relocation_edges(0, 27, 8), Err(EvalError::ReadPointerAsBytes));
    assert_eq!(alloc.check_relocation_edges(0, 21, 8), Err(EvalError::ReadPointerAsBytes));
}

#[test]
fn edges_check_tests_the_bounds_first() {
    let alloc = allocation(64, &[8]);
    assert_eq!(alloc.check_relocation_edges(9, 65, 8), Err(EvalError::PointerOutOfBounds));
}

#[test]
fn edges_check_is_looser_than_the_check_for_plain_data() {
    let alloc = allocation(64, &[8]);
    assert_eq!(alloc.check_relocation_edges(0, 32, 8), Ok(()));
    assert_eq!(alloc.check_no_relocations(0, 32, 8), Err(EvalError::ReadPointerAsBytes));
}
