use proka_kernel::paging::{boot_page_table_entries, TableEntry, PDPT_LOW_ADDR, PML4_ADDR, PT_LOW_ADDR};
use proka_kernel::vmm::{PRESENT, WRITABLE};

#[test]
fn boot_tables_map_low_memory_to_itself() {
    let es = boot_page_table_entries(0x107000);
    assert_eq!(es[0], TableEntry { table: PML4_ADDR, index: 0, phys: PDPT_LOW_ADDR, flags: PRESENT | WRITABLE });
    let low: Vec<&TableEntry> = es.iter().filter(|e| e.table == PT_LOW_ADDR).collect();
    assert_eq!(low.len(), 512);
    assert!(low.iter().enumerate().all(|(i, e)| e.index == i as u64 && e.phys == i as u64 * 0x1000));
    assert!(es.iter().any(|e| e.table == PML4_ADDR && e.index == 256));
}
