use proka_kernel::buddy::{block_size, BuddyAllocator};

#[test]
fn block_sizes_are_powers_of_two() {
    assert_eq!(block_size(0), 1);
    assert_eq!(block_size(3), 8);
    assert_eq!(block_size(11), 2048);
}

#[test]
fn region_is_merged_and_split_back() {
    let mut a = BuddyAllocator::new();
    a.set_bitmap(4);
    a.add_region(0, 16);
    assert_eq!(a.total_frames(), 16);
    assert_eq!(a.used_frames(), 0);
    let p = a.allocate(2).unwrap();
    assert_eq!(p % 4, 0);
    assert_eq!(a.used_frames(), 4);
    assert_eq!(a.free_frames(), 12);
    let q = a.allocate(0).unwrap();
    assert_ne!(q, p);
    assert_eq!(a.used_frames(), 5);
    a.dealloc(q, 0);
    a.dealloc(p, 2);
    assert_eq!(a.used_frames(), 0);
    assert_eq!(a.allocate(4), Some(0));
}

#[test]
fn too_large_or_empty_requests_fail() {
    let mut a = BuddyAllocator::new();
    assert_eq!(a.allocate(0), None);
    a.set_bitmap(1);
    a.add_region(0, 4);
    assert_eq!(a.allocate(12), None);
    assert_eq!(a.allocate(3), None);
    assert!(a.allocate(2).is_some());
    assert_eq!(a.allocate(0), None);
}

#[test]
fn without_a_bitmap_nothing_merges() {
    let mut a = BuddyAllocator::new();
    a.add_region(0, 4);
    assert_eq!(a.allocate(1), None);
    assert!(a.allocate(0).is_some());
}

#[test]
fn bitmap_bits() {
    let mut a = BuddyAllocator::new();
    a.set_bitmap(2);
    a.set_bit(70, true);
    assert!(a.get_bit(70));
    assert!(!a.get_bit(71));
    a.set_bit(70, false);
    assert!(!a.get_bit(70));
    a.set_bit(1000, true);
    assert!(!a.get_bit(1000));
}

#[test]
fn freed_range_can_be_allocated_again() {
    let mut a = BuddyAllocator::new();
    a.set_bitmap(1);
    a.add_region(8, 16);
    let p = a.allocate(3).unwrap();
    assert_eq!(p, 8);
    a.dealloc_range(8, 16);
    assert_eq!(a.used_frames(), 0);
    assert_eq!(a.allocate(3), Some(8));
}

#[test]
fn blocks_come_aligned_to_their_size() {
    let mut a = BuddyAllocator::new();
    a.set_bitmap(4);
    a.add_region(3, 200);
    for order in [0usize, 1, 2, 3, 4] {
        let p = a.allocate(order).unwrap();
        assert_eq!(p % (1 << order), 0);
    }
}
