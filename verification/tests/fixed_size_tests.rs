use building_blocks::slotmap::{FixedSizeSlotMap, SlotMapKey};

#[test]
fn fixed_size_slotmap_stores_a_value() {
    const CAPACITY: usize = 123;
    let mut sut = FixedSizeSlotMap::<u64, CAPACITY>::new();
    let key = sut.insert(78181).unwrap();
    assert_eq!(sut.get(key), Some(&78181));
    assert_eq!(sut.capacity(), CAPACITY);
    assert_eq!(sut.len(), 1);
}

#[test]
fn fixed_size_slotmap_is_created_empty() {
    let sut = FixedSizeSlotMap::<u8, 16>::new();
    assert_eq!(sut.capacity(), 16);
    assert_eq!(sut.len(), 0);
    assert!(sut.is_empty());
    assert!(!sut.is_full());
    assert!(sut.iter().next().is_none());
    assert!(FixedSizeSlotMap::<u8, 16>::try_new().is_some());
}

#[test]
fn fixed_size_slotmap_that_cannot_exist_is_not_created() {
    assert!(FixedSizeSlotMap::<u64, { usize::MAX }>::try_new().is_none());
}

#[test]
fn fixed_size_slotmap_fills_up_and_recycles() {
    let mut sut = FixedSizeSlotMap::<u64, 4>::new();
    for (n, value) in [10, 20, 30, 40].iter().enumerate() {
        assert_eq!(sut.insert(*value), Some(SlotMapKey::new(n)));
    }
    assert!(sut.is_full());
    assert_eq!(sut.insert(50), None);
    assert!(sut.remove(SlotMapKey::new(1)));
    assert!(!sut.remove(SlotMapKey::new(1)));
    assert_eq!(sut.insert(99), Some(SlotMapKey::new(1)));
    assert_eq!(sut.get(SlotMapKey::new(1)), Some(&99));
    assert!(sut.contains(SlotMapKey::new(3)));
    assert!(!sut.contains(SlotMapKey::new(4)));
}

#[test]
fn fixed_size_slotmap_inserts_at_keys_and_iterates() {
    let mut sut = FixedSizeSlotMap::<u64, 4>::new();
    assert!(sut.insert_at(SlotMapKey::new(0), 5));
    assert!(sut.insert_at(SlotMapKey::new(2), 6));
    assert!(!sut.insert_at(SlotMapKey::new(4), 7));
    *sut.get_mut(SlotMapKey::new(2)).unwrap() += 1;
    assert!(sut.get_mut(SlotMapKey::new(1)).is_none());
    let mut entries = vec![];
    let mut iter = sut.iter();
    while let Some((key, value)) = iter.next() {
        entries.push((key.value(), *value));
    }
    assert_eq!(entries, vec![(0, 5), (2, 7)]);
    assert_eq!(sut.len(), 2);
}
