use proka_kernel::buddy::BuddyAllocator;
use proka_kernel::frame::{bitmap_plan, allocate_contiguous, deallocate_contiguous, deallocate_frame, format_bytes, stats, FrameAlloc, MemoryRegion};

#[test]
fn bytes_are_shown_in_the_largest_unit() {
    assert_eq!(format_bytes(512), "512 B");
    assert_eq!(format_bytes(2048), "2 KiB");
    assert_eq!(format_bytes(5 * 1024 * 1024 + 1), "5 MiB");
    assert_eq!(format_bytes(3 << 40), "3 TiB");
    assert_eq!(format_bytes(usize::MAX), "16777215 TiB");
}

#[test]
fn contiguous_frames_come_from_buddy_blocks() {
    let mut a = BuddyAllocator::new();
    a.set_bitmap(1);
    a.add_region(0, 64);
    let p = allocate_contiguous(&mut a, 3).unwrap();
    assert_eq!(p % 4, 0);
    assert_eq!(a.used_frames(), 3);
    let st = stats(&a);
    assert_eq!(st.total_frames, 64);
    assert_eq!(st.used_frames, 3);
    assert_eq!(st.free_frames, 61);
    assert_eq!(st.total_memory, 64 * 4096);
    deallocate_contiguous(&mut a, p, 3);
    assert_eq!(a.used_frames(), 0);
    let q = allocate_contiguous(&mut a, 1).unwrap();
    deallocate_frame(&mut a, q);
    assert_eq!(a.used_frames(), 0);
}

#[test]
fn bitmap_allocator_skips_reserved_memory() {
    let map = [
        MemoryRegion { base: 0, length: 0x100_0000, usable: true },
        MemoryRegion { base: 0x100_0000, length: 0x400_0000, usable: true },
        MemoryRegion { base: 0x500_0000, length: 0x10_0000, usable: false },
    ];
    let mut fa = FrameAlloc::new(0x600_0000 / 4096 / 8 + 1);
    fa.init(&map);
    let f = fa.allocate_frame().unwrap();
    assert_eq!(f, 12800 * 4096);
    assert_eq!(fa.get_bit(12800), 1);
    assert_eq!(fa.get_bit(0), 1);
    fa.deallocate_frame(f);
    assert_eq!(fa.get_bit(12800), 0);
    assert_eq!(fa.get_bit(0x500_0000 / 4096), 1);
    fa.set_bit(12801, 1);
    assert_eq!(fa.allocate_frame(), Some(12800 * 4096));
    assert_eq!(fa.allocate_frame(), Some(12802 * 4096));
}

#[test]
fn the_bitmap_goes_to_the_first_region_that_holds_it() {
    let map = [
        MemoryRegion { base: 0, length: 4, usable: true },
        MemoryRegion { base: 0x10_0000, length: 0x1000, usable: false },
        MemoryRegion { base: 0x20_0000, length: 0x80_0000, usable: true },
    ];
    // 0xA00000 bytes of memory are 2560 pages: 40 words, 320 bytes.
    assert_eq!(bitmap_plan(&map), Some((0x20_0000, 320)));
    let tiny = [MemoryRegion { base: 0, length: 4, usable: true }];
    assert_eq!(bitmap_plan(&tiny), None);
    let none = [MemoryRegion { base: 0, length: 4, usable: false }];
    assert_eq!(bitmap_plan(&none), None);
}
