use nova::runtime::memory::{Arena, DEFAULT_CHUNK_SIZE};

#[test]
fn arena_multiple_allocations() {
    let mut arena = Arena::new();
    for _ in 0..1000 {
        arena.allocate(4, 4);
    }
    assert_eq!(arena.bytes_used(), 4000);
    assert_eq!(arena.total_capacity(), DEFAULT_CHUNK_SIZE);
}

#[test]
fn arena_reset() {
    let mut arena = Arena::new();
    for _ in 0..100 {
        arena.allocate(8, 8);
    }
    let used_before = arena.bytes_used();
    arena.reset();
    assert_eq!(arena.bytes_used(), 0);
    assert!(used_before > 0);
    assert_eq!(arena.total_capacity(), DEFAULT_CHUNK_SIZE);
}

#[test]
fn arena_with_capacity_grows_by_chunks() {
    let mut arena = Arena::with_capacity(1024);
    assert_eq!(arena.total_capacity(), 1024);
    let a = arena.allocate(1000, 8);
    assert_eq!((a.chunk, a.offset), (0, 0));
    // does not fit in what is left of the first chunk: a new default chunk
    let b = arena.allocate(100, 8);
    assert_eq!((b.chunk, b.offset), (1, 0));
    assert_eq!(arena.total_capacity(), 1024 + DEFAULT_CHUNK_SIZE);
    assert_eq!(arena.bytes_used(), 1100);
    // an allocation larger than the default chunk size gets a chunk of its own size
    let c = arena.allocate(DEFAULT_CHUNK_SIZE + 1, 1);
    assert_eq!((c.chunk, c.offset), (2, 0));
    assert_eq!(arena.total_capacity(), 1024 + 2 * DEFAULT_CHUNK_SIZE + 1);
}

#[test]
fn arena_aligns_allocations() {
    let mut arena = Arena::new();
    let a = arena.allocate(3, 1);
    assert_eq!(a.offset, 0);
    let b = arena.allocate(8, 8);
    assert_eq!(b.offset, 8);
    let c = arena.allocate(1, 16);
    assert_eq!(c.offset, 16);
    assert_eq!(arena.bytes_used(), 17);
}

#[test]
fn allocation_accounting_grows_by_one_chunk_at_most() {
    let mut arena = Arena::new();
    let cap0 = arena.total_capacity();
    let used0 = arena.bytes_used();
    arena.allocate(100, 8);
    assert!(arena.bytes_used() >= used0 + 100);
    assert_eq!(arena.total_capacity(), cap0);
    let used1 = arena.bytes_used();
    arena.allocate(DEFAULT_CHUNK_SIZE + 10, 8);
    assert!(arena.bytes_used() >= used1 + DEFAULT_CHUNK_SIZE + 10);
    assert_eq!(arena.total_capacity(), cap0 + DEFAULT_CHUNK_SIZE + 10);
    assert!(arena.bytes_used() <= arena.total_capacity());
}

#[test]
fn allocations_since_reset_do_not_overlap() {
    let mut arena = Arena::new();
    let a = arena.allocate(10, 4);
    let b = arena.allocate(3, 1);
    let c = arena.allocate(8, 8);
    assert_eq!(a.chunk, b.chunk);
    assert!(a.offset + 10 <= b.offset);
    assert!(b.offset + 3 <= c.offset);
    assert!(a.offset + 10 <= c.offset);
}

#[test]
fn test_arena_basic_allocation() {
    let mut arena = Arena::new();
    let x = arena.alloc_value(&42i64.to_le_bytes(), 8);
    assert_eq!(i64::from_le_bytes(arena.read(x, 8).try_into().unwrap()), 42);
    arena.write(x, &100i64.to_le_bytes());
    assert_eq!(i64::from_le_bytes(arena.read(x, 8).try_into().unwrap()), 100);
}

#[test]
fn test_arena_multiple_allocations() {
    let mut arena = Arena::new();
    for i in 0..1000i32 {
        let v = arena.alloc_value(&i.to_le_bytes(), 4);
        assert_eq!(i32::from_le_bytes(arena.read(v, 4).try_into().unwrap()), i);
    }
    assert!(arena.bytes_used() >= 4000);
}

#[test]
fn a_write_leaves_other_allocations_alone() {
    let mut arena = Arena::new();
    let a = arena.alloc_value(&[1, 2, 3], 1);
    let b = arena.alloc_value(&[4, 5], 1);
    arena.write(a, &[9, 9, 9]);
    assert_eq!(arena.read(a, 3), vec![9, 9, 9]);
    assert_eq!(arena.read(b, 2), vec![4, 5]);
    arena.reset();
    assert_eq!(arena.read(b, 2), vec![4, 5]);
}
