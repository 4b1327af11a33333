use arena_allocator::{align_up, Arena, ArenaError, MAX_CAPACITY};

#[test]
fn fresh_arena_is_empty() {
    for capacity in [1usize, 7, 8, 64, 1024, 4096] {
        let arena = Arena::new(capacity).unwrap();
        assert_eq!(arena.used(), 0);
        assert_eq!(arena.remaining(), capacity);
    }
}

#[test]
fn zero_capacity_is_refused() {
    assert_eq!(Arena::new(0).unwrap_err(), ArenaError::ZeroCapacity);
}

#[test]
fn oversized_capacity_is_refused() {
    assert_eq!(Arena::new(usize::MAX).unwrap_err(), ArenaError::InvalidLayout);
    assert_eq!(
        Arena::new(MAX_CAPACITY + 1).unwrap_err(),
        ArenaError::InvalidLayout
    );
}

#[test]
fn sequential_allocations_accumulate_aligned_sizes() {
    let mut arena = Arena::new(64).unwrap();

    // one byte at alignment 1: cursor 0 -> 1
    let off1 = arena.allocate(&[0xAA], 1).unwrap();
    assert_eq!(off1, 0);
    assert_eq!(arena.used(), 1);

    // four bytes at alignment 4: cursor rounds 1 -> 4, then 4 + 4 = 8
    let off2 = arena.allocate(&7u32.to_le_bytes(), 4).unwrap();
    assert_eq!(off2, 4);
    assert_eq!(arena.used(), 8);

    // eight bytes at alignment 8: cursor already aligned, 8 + 8 = 16
    let off3 = arena.allocate(&9u64.to_le_bytes(), 8).unwrap();
    assert_eq!(off3, 8);
    assert_eq!(arena.used(), 16);

    // every value reads back exactly as written
    assert_eq!(arena.read_bytes(off1, 1), vec![0xAA]);
    let b2 = arena.read_bytes(off2, 4);
    assert_eq!(u32::from_le_bytes([b2[0], b2[1], b2[2], b2[3]]), 7);
    let b3 = arena.read_bytes(off3, 8);
    assert_eq!(
        u64::from_le_bytes([b3[0], b3[1], b3[2], b3[3], b3[4], b3[5], b3[6], b3[7]]),
        9
    );
}

#[test]
fn failed_allocation_changes_nothing() {
    let mut arena = Arena::new(16).unwrap();
    arena.allocate(&[1, 2, 3, 4], 4).unwrap();
    let used_before = arena.used();
    let remaining_before = arena.remaining();

    let result = arena.allocate(&[0u8; 13], 1);
    assert_eq!(result.unwrap_err(), ArenaError::NotEnoughCapacity);
    assert_eq!(arena.used(), used_before);
    assert_eq!(arena.remaining(), remaining_before);

    // the stored bytes are untouched as well
    assert_eq!(arena.read_bytes(0, 4), vec![1, 2, 3, 4]);
}

#[test]
fn used_plus_remaining_is_capacity_after_every_operation() {
    let capacity = 32usize;
    let mut arena = Arena::new(capacity).unwrap();
    assert_eq!(arena.used() + arena.remaining(), capacity);

    arena.allocate(&[5; 10], 2).unwrap();
    assert_eq!(arena.used() + arena.remaining(), capacity);

    // a failing call keeps the balance too
    let _ = arena.allocate(&[5; 100], 2);
    assert_eq!(arena.used() + arena.remaining(), capacity);

    arena.reset();
    assert_eq!(arena.used() + arena.remaining(), capacity);
}

#[test]
fn reset_reclaims_the_whole_buffer() {
    let capacity = 16usize;
    let mut arena = Arena::new(capacity).unwrap();
    arena.allocate(&[1; 12], 1).unwrap();

    arena.reset();
    assert_eq!(arena.used(), 0);
    assert_eq!(arena.remaining(), capacity);

    // succeeds although 12 + 12 bytes exceed the capacity in total
    let off = arena.allocate(&[2; 12], 1).unwrap();
    assert_eq!(off, 0);
    assert_eq!(arena.used(), 12);
    assert_eq!(arena.read_bytes(0, 12), vec![2; 12]);
}

#[test]
fn returned_offsets_are_aligned() {
    let mut arena = Arena::new(256).unwrap();
    arena.allocate(&[1], 1).unwrap();
    for align in [1usize, 2, 4, 8, 16, 32] {
        let off = arena.allocate(&[0xCC], align).unwrap();
        assert_eq!(off % align, 0);
    }
}

#[test]
fn eight_byte_arena_fills_exactly() {
    let mut arena = Arena::new(8).unwrap();
    let result = arena.allocate(&0x0102030405060708u64.to_le_bytes(), 8);
    assert!(result.is_ok());
    assert_eq!(arena.used(), 8);
    assert_eq!(arena.remaining(), 0);

    let second = arena.allocate(&1u64.to_le_bytes(), 8);
    assert_eq!(second.unwrap_err(), ArenaError::NotEnoughCapacity);
}

#[test]
fn four_byte_value_in_large_arena() {
    let mut arena = Arena::new(1024).unwrap();
    let off = arena.allocate(&42u32.to_le_bytes(), 4).unwrap();
    let b = arena.read_bytes(off, 4);
    assert_eq!(u32::from_le_bytes([b[0], b[1], b[2], b[3]]), 42);
    assert_eq!(arena.used(), 4);
}

#[test]
fn empty_allocation_succeeds_without_consuming() {
    let mut arena = Arena::new(4).unwrap();
    let off = arena.allocate(&[], 1).unwrap();
    assert_eq!(off, 0);
    assert_eq!(arena.used(), 0);
    assert_eq!(arena.remaining(), 4);
}

#[test]
fn align_up_rounds_to_multiples() {
    assert_eq!(align_up(0, 8), 0);
    assert_eq!(align_up(1, 8), 8);
    assert_eq!(align_up(7, 8), 8);
    assert_eq!(align_up(8, 8), 8);
    assert_eq!(align_up(9, 8), 16);
}

#[test]
fn error_messages_describe_each_variant() {
    assert_eq!(ArenaError::ZeroCapacity.message(), "Zero capacity");
    assert_eq!(ArenaError::InvalidLayout.message(), "Invalid layout");
    assert_eq!(ArenaError::AllocationFailed.message(), "Allocation failed");
    assert_eq!(
        ArenaError::NotEnoughCapacity.message(),
        "Not enough capacity"
    );
}
