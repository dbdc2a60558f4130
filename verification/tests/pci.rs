use proka_kernel::pci::xhci_controllers;
use proka_kernel::pci::{decode_class, decode_identifier, PciLocation, PciScanner};

fn config_read(addr: u32) -> u32 {
    let bus = (addr >> 16) & 0xFF;
    let slot = (addr >> 11) & 0x1F;
    let func = (addr >> 8) & 0x7;
    let offset = addr & 0xFF;
    match (bus, slot, func) {
        (0, 1, 0) => match offset {
            0 => 0x8086_1237,
            8 => 0x0006_0000,
            0x0E => 0x0000_0080,
            _ => 0,
        },
        (0, 1, 2) => match offset {
            0 => 0x8086_7010,
            8 => 0x0001_0180,
            _ => 0,
        },
        (3, 4, 0) => match offset {
            0 => 0x1234_1111,
            8 => 0x0003_0000,
            0x0E => 0,
            _ => 0,
        },
        _ => 0xFFFF_FFFF,
    }
}

#[test]
fn config_address_layout() {
    let loc = PciLocation::new(1, 2, 3);
    assert_eq!(loc.config_address(0x10), 0x8001_1310);
    assert_eq!(loc.config_address(0x13), 0x8001_1310);
}

#[test]
fn identifier_and_class_decoding() {
    let id = decode_identifier(0x8086_1237);
    assert_eq!(id.vendor, 0x8086);
    assert_eq!(id.device, 0x1237);
    let c = decode_class(0x0006_0180);
    assert_eq!((c.class, c.subclass, c.prog_if), (0x06, 0x01, 0x80));
}

#[test]
fn scan_finds_every_function_in_order() {
    let mut s = PciScanner::new();
    let mut found = Vec::new();
    let mut reads = 0usize;
    while let Some(addr) = s.next_address() {
        reads += 1;
        if let Some((loc, id, class)) = s.feed(config_read(addr)) {
            found.push((loc.bus, loc.slot, loc.func, id.vendor, class.class));
        }
    }
    assert_eq!(
        found,
        vec![(0, 1, 0, 0x8086, 0x06), (0, 1, 2, 0x8086, 0x01), (3, 4, 0, 0x1234, 0x03)]
    );
    assert!(reads > 256 * 32);
    let devices = s.into_devices();
    assert_eq!(devices.len(), 3);
    assert_eq!(devices[2].0.device, 0x1111);
}

#[test]
fn xhci_controllers_are_picked_out() {
    let d = vec![
        (decode_identifier(0x8086_0001), decode_class(0x000C_0330)),
        (decode_identifier(0x8086_0002), decode_class(0x000C_0320)),
        (decode_identifier(0x1b36_000d), decode_class(0x000C_0330)),
    ];
    let x = xhci_controllers(&d);
    assert_eq!(x.len(), 2);
    assert_eq!(x[1].0.vendor, 0x1b36);
}
