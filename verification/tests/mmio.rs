use proka_kernel::mmio::{MapStep, MmioEntry, MmioMapper, MmioPlan, MmioTable, NewPdt, DISPLAY_VIRT};

#[test]
fn table_starts_with_the_display() {
    let t = MmioTable::with_display();
    assert_eq!(t.count, 1);
    assert_eq!(t.entries[0].virt, DISPLAY_VIRT);
    assert_eq!(t.entries[0].length, 0x100_0000);
    assert_eq!(t.entries.len(), 64);
    assert_eq!(MmioEntry::default(), t.entries[1]);
}

#[test]
fn devices_are_recorded() {
    let mut t = MmioTable::with_display();
    assert_eq!(t.record_device(0, 0x1000, 2), MmioPlan::Skipped);
    assert_eq!(t.record_device(0xE000_0000, 0, 2), MmioPlan::Skipped);
    assert_eq!(t.record_device(0xE000_0000, 0x2_0000_0000_0000, 2), MmioPlan::Skipped);
    assert_eq!(t.record_device(0xFD00_0000, 0x100_0000, 3), MmioPlan::Display);
    assert_eq!(t.entries[0].phys, 0xFD00_0000);
    assert_eq!(t.count, 1);
    let p = t.record_device(0xFEB0_0000, 0x40_0000, 2);
    assert_eq!(p, MmioPlan::Mapped { virt: DISPLAY_VIRT + 0x100_0000, pages: vec![0, 1, 2] });
    assert_eq!(t.count, 2);
    assert_eq!(t.entries[1].phys, 0xFEB0_0000);
    assert_eq!(t.entries[1].length, 0x40_0000);
    let p = t.record_device(0xFEC0_0000, 0x1000, 1);
    assert_eq!(p, MmioPlan::Mapped { virt: DISPLAY_VIRT + 0x140_0000, pages: vec![0] });
}

#[test]
fn mapper_switches_page_directories() {
    let mut m = MmioMapper::new();
    assert_eq!(m.step(0, 0x5000), MapStep { new_pdt: None, pdpt_idx: 0, pdt_index: 8 });
    let s = m.step(504, 0x1_2345);
    assert_eq!(s, MapStep { new_pdt: Some(NewPdt { slot: 1, phys: 0xA345 }), pdpt_idx: 1, pdt_index: 0 });
    let s = m.step(505, 0x1_2345);
    assert_eq!(s.new_pdt, Some(NewPdt { slot: 2, phys: 0xB345 }));
    assert_eq!(m, MmioMapper { pdpt_idx: 2, next_pdt_phy: 0xC345 });
}
