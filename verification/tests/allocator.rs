use arena_alloc::{Arena, ArenaBlock, ArenaError};

#[test]
fn block_acquire_zero_fails() {
    assert!(matches!(ArenaBlock::new(0), Err(ArenaError::InvalidSize)));
}

#[test]
fn block_acquire_default_capacity() {
    let b = ArenaBlock::new(10).unwrap();
    assert_eq!(b.capacity(), 8192);
    assert_eq!(b.usage(), 0);
}

#[test]
fn block_acquire_doubles_capacity() {
    let b = ArenaBlock::new(20000).unwrap();
    assert_eq!(b.capacity(), 32768);
    assert_eq!(b.usage(), 0);
}

#[test]
fn block_acquire_exact_boundary() {
    let b = ArenaBlock::new(8192).unwrap();
    assert_eq!(b.capacity(), 8192);
    let b2 = ArenaBlock::new(8193).unwrap();
    assert_eq!(b2.capacity(), 16384);
}

#[test]
fn block_free_absent_handle_fails() {
    assert!(matches!(ArenaBlock::free(None), Err(ArenaError::NullPointer)));
}

#[test]
fn block_free_present_handle_succeeds() {
    let b = ArenaBlock::new(1).unwrap();
    assert!(matches!(ArenaBlock::free(Some(b)), Ok(())));
}

#[test]
fn allocate_zero_is_invalid_size() {
    let mut a = Arena::new();
    assert!(matches!(a.allocate(0), Err(ArenaError::InvalidSize)));
    a.allocate(10).unwrap();
    assert!(matches!(a.allocate(0), Err(ArenaError::InvalidSize)));
}

#[test]
fn first_allocation_creates_default_block() {
    let mut a = Arena::new();
    let h = a.allocate(10).unwrap();
    assert_eq!(a.block_count(), 1);
    assert_eq!(a.block_capacity(0), 8192);
    assert_eq!(a.block_usage(0), 10);
    assert_eq!(h.block, 0);
    assert_eq!(h.offset, 0);
    assert_eq!(h.size, 10);
}

#[test]
fn large_request_doubles_until_it_fits() {
    let mut a = Arena::new();
    let h = a.allocate(20000).unwrap();
    assert_eq!(a.block_count(), 1);
    assert_eq!(a.block_capacity(0), 32768);
    assert_eq!(a.block_usage(0), 20000);
    assert_eq!(h.block, 0);
    assert_eq!(h.offset, 0);
}

#[test]
fn chain_grows_when_remaining_capacity_is_short() {
    let mut a = Arena::new();
    let h1 = a.allocate(5000).unwrap();
    assert_eq!(a.block_count(), 1);
    assert_eq!(a.block_usage(0), 5000);
    let h2 = a.allocate(5000).unwrap();
    assert_eq!(a.block_count(), 2);
    assert_eq!(a.block_usage(0), 5000);
    assert_eq!(a.block_usage(1), 5000);
    assert_eq!(a.block_capacity(1), 8192);
    assert_eq!(a.end_index(), 1);
    assert_eq!(h1.block, 0);
    assert_eq!(h2.block, 1);
    assert_eq!(h2.offset, 0);
}

#[test]
fn leftover_capacity_of_current_block_is_reused() {
    let mut a = Arena::new();
    a.allocate(20000).unwrap();
    let h = a.allocate(10000).unwrap();
    assert_eq!(a.block_count(), 1);
    assert_eq!(a.block_usage(0), 30000);
    assert_eq!(h.block, 0);
    assert_eq!(h.offset, 20000);
    let h2 = a.allocate(5000).unwrap();
    assert_eq!(a.block_count(), 2);
    assert_eq!(h2.block, 1);
    assert_eq!(h2.offset, 0);
    assert_eq!(a.block_capacity(1), 8192);
}

#[test]
fn release_resets_for_reuse() {
    let mut a = Arena::new();
    a.allocate(10).unwrap();
    a.allocate(20000).unwrap();
    assert!(matches!(a.free(), Ok(())));
    assert_eq!(a.block_count(), 0);
    assert_eq!(a.end_index(), 0);
    let h = a.allocate(10).unwrap();
    assert_eq!(a.block_count(), 1);
    assert_eq!(a.block_capacity(0), 8192);
    assert_eq!(a.block_usage(0), 10);
    assert_eq!(h.block, 0);
    assert_eq!(h.offset, 0);
}

#[test]
fn repeated_release_is_harmless() {
    let mut a = Arena::new();
    a.allocate(123).unwrap();
    assert!(matches!(a.free(), Ok(())));
    assert!(matches!(a.free(), Ok(())));
    assert_eq!(a.block_count(), 0);
    assert_eq!(a.end_index(), 0);
}

#[test]
fn distinct_allocations_do_not_alias() {
    let mut a = Arena::new();
    let h1 = a.allocate(4).unwrap();
    let h2 = a.allocate(4).unwrap();
    assert_eq!(h1.block, h2.block);
    assert!(h1.offset + h1.size <= h2.offset);
    for i in 0..4 {
        a.write(h1, i, 0x11);
    }
    for i in 0..4 {
        a.write(h2, i, 0x22);
    }
    for i in 0..4 {
        assert_eq!(a.read(h1, i), 0x11);
        assert_eq!(a.read(h2, i), 0x22);
    }
}

#[test]
fn fresh_block_payload_is_zeroed() {
    let mut a = Arena::new();
    let h = a.allocate(16).unwrap();
    for i in 0..16 {
        assert_eq!(a.read(h, i), 0);
    }
}

#[test]
fn writes_round_trip_through_reads() {
    let mut a = Arena::new();
    let h = a.allocate(8).unwrap();
    for i in 0..8 {
        a.write(h, i, (i as u8) * 3);
    }
    for i in 0..8 {
        assert_eq!(a.read(h, i), (i as u8) * 3);
    }
}

#[test]
fn oversized_request_is_invalid_alignment() {
    assert!(matches!(
        ArenaBlock::new(usize::MAX),
        Err(ArenaError::InvalidAlignment)
    ));
    let mut a = Arena::new();
    assert!(matches!(
        a.allocate(usize::MAX),
        Err(ArenaError::InvalidAlignment)
    ));
    assert_eq!(a.block_count(), 0);
    assert!(a.allocate(10).is_ok());
    assert!(matches!(
        a.allocate(usize::MAX),
        Err(ArenaError::InvalidAlignment)
    ));
    assert_eq!(a.block_count(), 1);
    assert_eq!(a.block_usage(0), 10);
}
