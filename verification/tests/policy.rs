use levec::growth::{max_block_bytes, plan_push, INITIAL_CAPACITY};
use levec::PushError;

const MAX: usize = isize::MAX as usize;

#[test]
fn initial_capacity_is_four() {
    assert_eq!(INITIAL_CAPACITY, 4);
}

#[test]
fn plan_without_block_is_initial_capacity() {
    assert_eq!(plan_push(0, 0, 8, 8), Ok(4));
    assert_eq!(plan_push(0, 0, 1, 1), Ok(4));
}

#[test]
fn plan_with_room_keeps_capacity() {
    assert_eq!(plan_push(0, 4, 8, 8), Ok(4));
    assert_eq!(plan_push(3, 4, 8, 8), Ok(4));
    assert_eq!(plan_push(5, 8, 2, 2), Ok(8));
    assert_eq!(plan_push(0, 8, 2, 2), Ok(8));
}

#[test]
fn plan_for_full_block_doubles() {
    assert_eq!(plan_push(4, 4, 8, 8), Ok(8));
    assert_eq!(plan_push(8, 8, 8, 8), Ok(16));
    assert_eq!(plan_push(1024, 1024, 3, 1), Ok(2048));
}

#[test]
fn plan_refuses_zero_size_first() {
    assert_eq!(plan_push(0, 0, 0, 1), Err(PushError::ZeroSized));
    assert_eq!(plan_push(2, 4, 0, 1), Err(PushError::ZeroSized));
    assert_eq!(plan_push(4, 4, 0, 8), Err(PushError::ZeroSized));
}

#[test]
fn plan_refuses_first_block_over_limit() {
    assert_eq!(plan_push(0, 0, MAX / 4, 1), Ok(4));
    assert_eq!(plan_push(0, 0, MAX / 4 + 1, 1), Err(PushError::CapacityOverflow));
    assert_eq!(plan_push(0, 0, MAX, 1), Err(PushError::CapacityOverflow));
    assert_eq!(plan_push(0, 0, usize::MAX, 1), Err(PushError::CapacityOverflow));
}

#[test]
fn plan_refuses_doubled_block_over_limit() {
    let cap = MAX / 16;
    assert_eq!(plan_push(cap, cap, 8, 1), Ok(2 * cap));
    assert_eq!(plan_push(cap + 1, cap + 1, 8, 1), Err(PushError::CapacityOverflow));
    assert_eq!(plan_push(usize::MAX, usize::MAX, 1, 1), Err(PushError::CapacityOverflow));
    assert_eq!(plan_push(MAX, MAX, 1, 1), Err(PushError::CapacityOverflow));
}

#[test]
fn plan_rounds_limit_down_to_alignment() {
    // Four elements of this size take all bytes up to the last three.
    let size = MAX / 4;
    assert_eq!(4 * size, MAX - 3);
    assert_eq!(plan_push(0, 0, size, 1), Ok(4));
    assert_eq!(plan_push(0, 0, size, 4), Ok(4));
    assert_eq!(plan_push(0, 0, size, 8), Err(PushError::CapacityOverflow));
    assert_eq!(plan_push(0, 0, size - 1, 8), Ok(4));
    assert_eq!(plan_push(0, 0, size - 1, 16), Err(PushError::CapacityOverflow));
}

#[test]
fn plan_with_room_is_never_refused_for_size() {
    assert_eq!(plan_push(1, 4, MAX, 1), Ok(4));
}

#[test]
fn max_block_bytes_rounds_down() {
    assert_eq!(max_block_bytes(1), MAX);
    assert_eq!(max_block_bytes(2), MAX - 1);
    assert_eq!(max_block_bytes(8), MAX - 7);
    assert_eq!(max_block_bytes(4096), MAX - 4095);
    assert_eq!(max_block_bytes(3), MAX - MAX % 3);
}
