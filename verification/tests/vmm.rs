use proka_kernel::vmm::{
    prot_to_flags, round_down, round_up, KernelMmap, MemoryError, MemorySet, MmapError, MmapPlan,
    VmArea, VmAreaType, KERNEL_ELF_REGION_START, NO_EXECUTE, PRESENT, WRITABLE,
};

#[test]
fn page_rounding() {
    assert_eq!(round_down(0x1fff), 0x1000);
    assert_eq!(round_up(0x1001), 0x2000);
    assert_eq!(round_up(0x2000), 0x2000);
}

#[test]
fn areas_are_page_aligned_and_named() {
    let a = VmArea::new_with_type(0x1234, 0x5678, VmAreaType::KernelData);
    assert_eq!((a.start, a.end), (0x1000, 0x6000));
    assert_eq!(a.flags, PRESENT | WRITABLE | NO_EXECUTE);
    assert_eq!(a.name(), "kdata");
    assert_eq!(a.size(), 0x5000);
    assert!(a.contains(0x1000));
    assert!(!a.contains(0x6000));
    assert_eq!(VmAreaType::KernelText.default_flags(), PRESENT);
}

#[test]
fn overlapping_area_is_refused_and_areas_stay_sorted() {
    let mut ms = MemorySet::new();
    ms.insert_area(VmArea::new_with_type(0x5000, 0x6000, VmAreaType::KernelBss)).unwrap();
    ms.insert_area(VmArea::new_with_type(0x1000, 0x2000, VmAreaType::KernelText)).unwrap();
    assert_eq!(
        ms.insert_area(VmArea::new_with_type(0x1800, 0x5800, VmAreaType::KernelData)),
        Err(MemoryError::AreaOverlap)
    );
    assert_eq!(ms.areas.len(), 2);
    assert_eq!(ms.areas[0].start, 0x1000);
    assert_eq!(ms.find_area(0x5fff), Some(1));
    assert_eq!(ms.find_area(0x3000), None);
}

#[test]
fn heap_grows_in_place() {
    let mut ms = MemorySet::new();
    ms.expand_heap(0x10000, 0x20000).unwrap();
    assert_eq!(ms.areas.len(), 1);
    assert_eq!(ms.areas[0].area_type, VmAreaType::KernelHeap);
    ms.expand_heap(0x8000, 0x30000).unwrap();
    assert_eq!(ms.areas.len(), 1);
    assert_eq!((ms.areas[0].start, ms.areas[0].end), (0x8000, 0x30000));
}

#[test]
fn protection_flags() {
    assert_eq!(prot_to_flags(true, true), PRESENT | WRITABLE);
    assert_eq!(prot_to_flags(false, false), PRESENT | NO_EXECUTE);
}

#[test]
fn anonymous_mappings_bump_with_a_guard_page() {
    let mut m = KernelMmap::new();
    assert_eq!(m.mmap_anonymous(0, 0), Err(MmapError::ZeroLength));
    let p = m.mmap_anonymous(0, 5000).unwrap();
    assert_eq!(p, MmapPlan { start: KERNEL_ELF_REGION_START, page_count: 2 });
    assert_eq!(m.offset(), 0x3000);
    let q = m.mmap(None, 1, false).unwrap();
    assert_eq!(q.start, KERNEL_ELF_REGION_START + 0x3000);
    let fixed = m.mmap(Some(0x4321), 10, false).unwrap();
    assert_eq!(fixed, MmapPlan { start: 0x4000, page_count: 1 });
    assert_eq!(m.mmap(None, 10, true), Err(MmapError::FileBacked));
}

#[test]
fn elf_range_runs_out() {
    let mut m = KernelMmap::new();
    assert_eq!(m.mmap_anonymous(0, 0x1000_0000), Err(MmapError::RegionExhausted));
}

#[test]
fn inserted_areas_never_share_an_address() {
    let mut ms = MemorySet::new();
    let ranges = [(0x8000u64, 0x9000u64), (0x1000, 0x3000), (0x2000, 0x4000), (0x3000, 0x8000), (0x0, 0x1000)];
    for (s, e) in ranges {
        let _ = ms.insert_area(VmArea::new_with_type(s, e, VmAreaType::KernelData));
    }
    assert_eq!(ms.areas.len(), 4);
    for i in 0..ms.areas.len() {
        for j in 0..ms.areas.len() {
            if i != j {
                assert!(!ms.areas[i].overlaps(&ms.areas[j]));
            }
        }
    }
}
