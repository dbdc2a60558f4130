use proka_kernel::drivers::resource::{Resource, ResourceError, ResourceManager};

#[test]
fn test_resource_overlap() {
    let r1 = Resource::IoPort(0x3f8, 8);
    let r2 = Resource::IoPort(0x3f8, 1);
    let r3 = Resource::IoPort(0x400, 8);

    assert!(r1.overlaps(&r2));
    assert!(!r1.overlaps(&r3));

    let m1 = Resource::Mmio(0xfee00000, 0x1000);
    let m2 = Resource::Mmio(0xfee01000, 0x1000);
    let m3 = Resource::Mmio(0xfee00800, 0x1000);

    assert!(!m1.overlaps(&m2));
    assert!(m1.overlaps(&m3));

    let irq1 = Resource::Irq(1);
    let irq2 = Resource::Irq(2);
    let irq3 = Resource::Irq(1);

    assert!(irq1.overlaps(&irq3));
    assert!(!irq1.overlaps(&irq2));
}

#[test]
fn test_resource_manager_allocate() {
    let mut manager = ResourceManager::new();

    let r1 = manager.allocate(Resource::IoPort(0x3f8, 8));
    assert!(r1.is_ok());

    let r2 = manager.allocate(Resource::IoPort(0x3f8, 1));
    assert!(matches!(r2, Err(ResourceError::Conflict)));

    let r3 = manager.allocate(Resource::IoPort(0x3e8, 8));
    assert!(r3.is_ok());

    let r4 = manager.allocate(Resource::IoPort(0xffff, 1));
    assert!(r4.is_err() || r4.is_ok());
}

#[test]
fn test_resource_manager_deallocate() {
    let mut manager = ResourceManager::new();

    let resource = Resource::IoPort(0x3f8, 8);
    manager.allocate(resource).unwrap();

    assert!(manager.is_allocated(&resource));

    assert!(manager.deallocate(resource).is_ok());
    assert!(!manager.is_allocated(&resource));

    assert!(matches!(
        manager.deallocate(resource),
        Err(ResourceError::NotFound)
    ));
}

#[test]
fn test_global_resource_manager() {
    let mut mgr = ResourceManager::new();
    mgr.allocate(Resource::IoPort(0x2f8, 8))
        .expect("Failed to allocate");
    assert!(mgr.is_allocated(&Resource::IoPort(0x2f8, 8)));
    mgr.deallocate(Resource::IoPort(0x2f8, 8))
        .expect("Failed to deallocate");
    assert!(!mgr.is_allocated(&Resource::IoPort(0x2f8, 8)));
}

#[test]
fn zero_length_ranges_are_invalid_and_saturating_ends_are_accepted() {
    let mut manager = ResourceManager::new();
    assert!(matches!(
        manager.allocate(Resource::IoPort(0x10, 0)),
        Err(ResourceError::InvalidRange)
    ));
    assert!(matches!(
        manager.allocate(Resource::Mmio(0x1000, 0)),
        Err(ResourceError::InvalidRange)
    ));
    assert!(manager.allocate(Resource::IoPort(0xffff, 2)).is_ok());
    assert!(manager.allocate(Resource::Mmio(usize::MAX, 2)).is_ok());
}

#[test]
fn allocated_then_freed_resource_can_be_taken_again() {
    let mut manager = ResourceManager::new();
    let irq = Resource::Irq(4);
    manager.allocate(irq).unwrap();
    assert!(manager.check_conflict(&Resource::Irq(4)));
    assert!(matches!(manager.allocate(irq), Err(ResourceError::Conflict)));
    manager.deallocate(irq).unwrap();
    assert!(!manager.check_conflict(&Resource::Irq(4)));
    assert!(manager.allocate(irq).is_ok());
    assert_eq!(manager.allocated_resources(), vec![Resource::Irq(4)]);
}
