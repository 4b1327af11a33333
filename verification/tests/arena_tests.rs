use arena_allocator::{Arena, ArenaError};

#[test]
fn test_arena_creation() {
    let arena = Arena::new(1024).expect("Failed to create arena");
    assert_eq!(arena.remaining(), 1024);
    assert_eq!(arena.used(), 0);
}

#[test]
fn test_basic_allocation() {
    let mut arena = Arena::new(1024).unwrap();
    let offset = arena.allocate(&42u32.to_le_bytes(), 4).unwrap();
    let bytes = arena.read_bytes(offset, 4);
    let value = u32::from_le_bytes([bytes[0], bytes[1], bytes[2], bytes[3]]);
    assert_eq!(value, 42);
}

#[test]
fn test_alloc_out_of_capacity_returns_error() {
    // Arena de solo 8 bytes
    let mut arena = Arena::new(8).unwrap();

    // Primera asignación (consume 8 bytes)
    let result1 = arena.allocate(&1u64.to_le_bytes(), 8);
    assert!(result1.is_ok());

    // Segunda asignación (excede la capacidad) -> DEBE DEVOLVER ERROR
    let result2 = arena.allocate(&2u64.to_le_bytes(), 8);

    assert_eq!(
        result2.unwrap_err(),
        ArenaError::NotEnoughCapacity,
        "El error devuelto debe ser OutOfCapacity."
    );
}
