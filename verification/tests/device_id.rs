use proka_kernel::drivers::bus::{DeviceNode, DeviceTree};
use proka_kernel::drivers::bus::{ids_match, BusData, DeviceId, PciDeviceId, PlatformDeviceId};

#[test]
fn test_pci_device_id() {
    let id = PciDeviceId::new(0x8086, 0x1234);
    assert_eq!(id.vendor, 0x8086);
    assert_eq!(id.device, 0x1234);
    assert_eq!(id.name(), "pci");
    assert_eq!(id.unique_id(), "pci_0x8086_0x1234");
}

#[test]
fn test_platform_device_id() {
    let id = PlatformDeviceId::new("serial");
    assert_eq!(id.name, "serial");
    assert_eq!(id.name(), "platform");
    assert_eq!(id.unique_id(), "platform_serial");
}

#[test]
fn test_device_id_matches() {
    let pci = PciDeviceId::new(0x1234, 0x5678);
    let plat = PlatformDeviceId::new("keyboard");

    assert_eq!(pci.name(), "pci");
    assert_eq!(plat.name(), "platform");

    assert!(!ids_match(&pci, &plat));
    assert!(pci.matches(&pci));
}

#[test]
fn pci_ids_are_zero_padded_lowercase_hex() {
    let id = PciDeviceId::new(0xab, 0x1);
    assert_eq!(id.unique_id(), "pci_0x00ab_0x0001");
    assert!(id.matches(&PciDeviceId::new(0xab, 0x1)));
    assert!(!id.matches(&PciDeviceId::new(0xab, 0x2)));
}

#[test]
fn bus_data_holds_location() {
    let d = BusData::Pci { bus: 1, slot: 2, func: 3 };
    assert!(matches!(d, BusData::Pci { bus: 1, slot: 2, func: 3 }));
}

#[test]
fn device_paths_follow_parents() {
    let mut root = DeviceNode::new(PlatformDeviceId::new("root"), "pci0".to_string());
    root.mark_bound();
    assert!(root.is_bound());
    let mut child = DeviceNode::new(PciDeviceId::new(1, 2), "eth0".to_string());
    assert_eq!(child.get_path(), "/eth0");
    let mut parent = DeviceNode::new(PciDeviceId::new(0, 0), "pci0".to_string());
    parent.mark_unbound();
    child.set_parent(parent);
    assert_eq!(child.get_path(), "/pci0/eth0");
    let mut tree = DeviceTree::new();
    tree.add_device(child);
    assert_eq!(tree.list_devices().len(), 1);
    assert_eq!(root.get_path(), "/pci0");
}

#[test]
fn device_node_debug_shows_its_fields() {
    let node = DeviceNode::new(PciDeviceId::new(0x8086, 0x100e), "eth0".to_string());
    let text = format!("{:?}", node);
    assert!(text.starts_with("DeviceNode {"));
    assert!(text.contains("name: \"eth0\""));
    assert!(text.contains("parent: None"));
    assert!(text.contains("driver_bound: false"));
    assert!(text.contains("bus_data: None"));
}
