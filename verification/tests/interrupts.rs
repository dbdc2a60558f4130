use proka_kernel::acpi::{AcpiInfo, CpuInfo, InterruptOverride, IoApicInfo};
use proka_kernel::interrupts::{
    apic_base_value, choose_apic_mode, route_irq, sivr_value, timer_lvt_value, timer_ticks_elapsed,
    x2apic_msr, ApicMode, IoApic, IrqRegistry, IrqResult, IrqStats, RedirectionWrite,
};

fn handler_a(_v: u8) -> IrqResult {
    IrqResult::Handled
}

fn handler_b(_v: u8) -> IrqResult {
    IrqResult::Continue
}

#[test]
fn apic_mode_choice() {
    assert_eq!(choose_apic_mode(true, Some(1000)), Some(ApicMode::X2Apic));
    assert_eq!(choose_apic_mode(false, Some(4)), Some(ApicMode::XApic));
    assert_eq!(choose_apic_mode(false, None), Some(ApicMode::XApic));
    assert_eq!(choose_apic_mode(false, Some(256)), None);
    assert_eq!(choose_apic_mode(false, Some(255)), Some(ApicMode::XApic));
}

#[test]
fn apic_register_values() {
    assert_eq!(x2apic_msr(0x0B0), 0x80B);
    assert_eq!(x2apic_msr(0x380), 0x838);
    assert_eq!(apic_base_value(0xFEE0_0000, ApicMode::XApic), 0xFEE0_0800);
    assert_eq!(apic_base_value(0xFEE0_0000, ApicMode::X2Apic), 0xFEE0_0C00);
    assert_eq!(sivr_value(), 0x1FF);
    assert_eq!(timer_lvt_value(), 0x20030);
    assert_eq!(timer_ticks_elapsed(0xFFFF_0000), 0xFFFF);
}

#[test]
fn ioapic_redirection_writes() {
    let a = IoApic::new(0xFFFF_8000_FEC0_0000, 0, 0x0017_0020);
    assert_eq!(a.max_redirection_entries, 0x17);
    assert_eq!(
        a.set_redirection(1, 0x21, 2, 0),
        Some(RedirectionWrite { low_reg: 0x12, low_val: 0x21, high_reg: 0x13, high_val: 0x0200_0000 })
    );
    assert_eq!(a.set_redirection(0x18, 0x21, 0, 0), None);
    let w = a.set_redirection(0, 0x30, 1, 0x1_0000_8000).unwrap();
    assert_eq!(w.low_val, 0x8030);
    assert_eq!(w.high_val, 0x0100_0001);
}

#[test]
fn irq_routing_follows_overrides() {
    let acpi = AcpiInfo {
        lapic_address: 0xFEE0_0000,
        io_apics: vec![IoApicInfo { id: 0, address: 0xFEC0_0000, global_system_interrupt_base: 0 }],
        interrupt_overrides: vec![InterruptOverride { source: 0, mapped_to: 2 }],
        cpus: vec![CpuInfo { id: 0, apic_id: 0, enabled: true }],
    };
    assert_eq!(acpi.resolve_gsi(0), 2);
    assert_eq!(acpi.resolve_gsi(1), 1);
    let ioapics = vec![IoApic::new(0x1000, 0, 0x0017_0000), IoApic::new(0x2000, 24, 0x0017_0000)];
    let (i, w) = route_irq(&acpi, &ioapics, 0, 0x20, 0).unwrap();
    assert_eq!(i, 0);
    assert_eq!(w.low_reg, 0x10 + 2 * 2);
    let acpi2 = AcpiInfo {
        lapic_address: 0,
        io_apics: vec![],
        interrupt_overrides: vec![InterruptOverride { source: 9, mapped_to: 30 }],
        cpus: vec![],
    };
    let (i, w) = route_irq(&acpi2, &ioapics, 9, 0x29, 0).unwrap();
    assert_eq!(i, 1);
    assert_eq!(w.low_reg, 0x10 + 2 * 6);
    let none = AcpiInfo { lapic_address: 0, io_apics: vec![], interrupt_overrides: vec![], cpus: vec![] };
    assert!(route_irq(&none, &vec![], 1, 0x21, 0).is_none());
}

#[test]
fn registry_registers_once_and_counts() {
    let mut r: IrqRegistry<fn(u8) -> IrqResult> = IrqRegistry::new();
    assert_eq!(r.register(0x21, "keyboard", handler_a), Ok(()));
    assert_eq!(r.register(0x21, "again", handler_b), Err("Handler already registered"));
    let h = r.begin(0x21, 7).unwrap();
    assert_eq!(h(0x21), IrqResult::Handled);
    r.finish(0x21, 1);
    let st = r.get_stats(0x21);
    assert_eq!(st, IrqStats { count: 1, last_time: 1, interrupt_time: 7 });
    assert!(r.begin(0x22, 3).is_none());
    assert_eq!(r.get_stats(0x22).count, 1);
    assert_eq!(r.unregister(0x21), Ok(()));
    assert_eq!(r.get_stats(0x21), IrqStats::new());
    assert_eq!(r.unregister(0x21), Err("Handler not registered"));
    assert_eq!(IrqStats::default(), IrqStats::new());
}
