use proka_kernel::bitset::BitMap;

#[test]
fn slots_are_taken_first_free_first() {
    let mut m: BitMap<2> = BitMap::new();
    assert_eq!(m.capacity(), 128);
    assert!(!m.test(5));
    m.set(0);
    m.set(1);
    m.set(3);
    assert_eq!(m.allocate(), Some(2));
    assert_eq!(m.allocate(), Some(4));
    m.clear(1);
    assert!(!m.test(1));
    assert_eq!(m.allocate(), Some(1));
    assert!(m.test(200));
    m.set(500);
    m.clear(500);
}

#[test]
fn full_bitmap_gives_nothing() {
    let mut m: BitMap<1> = BitMap::new();
    for i in 0..64 {
        assert_eq!(m.allocate(), Some(i));
    }
    assert_eq!(m.allocate(), None);
    m.clear(63);
    assert_eq!(m.allocate(), Some(63));
}

#[test]
fn clearing_frees_only_that_slot() {
    let mut m: BitMap<1> = BitMap::new();
    m.set(3);
    m.set(5);
    m.clear(3);
    assert!(!m.test(3));
    assert!(m.test(5));
    m.clear(1000);
    assert!(m.test(5));
    assert_eq!(m.capacity(), 64);
}
