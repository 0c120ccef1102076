use building_blocks::allocator::{AllocationError, BumpAllocator, ByteAllocator};
use building_blocks::slotmap::placement::{
    checked_memory_size, place_structures, BackingStructure, InitializationError, Placement,
};
use building_blocks::slotmap::{RelocatableSlotMap, SlotMapKey};

/// Charges every request its size and the room for its alignment, as if each range
/// started at the worst possible address.
struct WorstCaseAllocator {
    left: usize,
    next: usize,
}

impl ByteAllocator for WorstCaseAllocator {
    fn allocate(&mut self, size: usize, align: usize) -> Result<usize, AllocationError> {
        let needed = size + align - 1;
        if needed > self.left {
            return Err(AllocationError::OutOfMemory);
        }
        self.left -= needed;
        let place = self.next;
        self.next += needed;
        Ok(place)
    }
}

/// Refuses the request with the given number, counted from zero.
struct FailingAllocator {
    fails_at: usize,
    requests: usize,
    cause: AllocationError,
}

impl ByteAllocator for FailingAllocator {
    fn allocate(&mut self, _size: usize, _align: usize) -> Result<usize, AllocationError> {
        let request = self.requests;
        self.requests += 1;
        if request == self.fails_at {
            Err(self.cause)
        } else {
            Ok(request * 1000)
        }
    }
}

fn index_size() -> usize {
    core::mem::size_of::<usize>()
}

#[test]
fn memory_size_is_the_sum_of_the_four_footprints() {
    let index = core::mem::size_of::<usize>();
    let index_align = core::mem::align_of::<usize>();
    let value = core::mem::size_of::<Option<u64>>();
    let value_align = core::mem::align_of::<Option<u64>>();
    for capacity in [0, 1, 10, 1000] {
        let expected = 3 * (index * capacity + index_align - 1) + value * capacity + value_align - 1;
        assert_eq!(RelocatableSlotMap::<u64>::memory_size(capacity), expected);
        assert_eq!(RelocatableSlotMap::<u64>::const_memory_size(capacity), expected);
        assert_eq!(checked_memory_size::<u64>(capacity), Some(expected));
    }
}

#[test]
fn memory_size_of_ten_bytes_on_a_machine_with_eight_byte_indices() {
    assert_eq!(core::mem::size_of::<usize>(), 8);
    assert_eq!(RelocatableSlotMap::<u8>::memory_size(10), 3 * 87 + 20);
    assert_eq!(RelocatableSlotMap::<u64>::memory_size(10), 3 * 87 + 167);
}

#[test]
fn memory_size_that_does_not_fit_is_none() {
    assert_eq!(checked_memory_size::<u64>(usize::MAX), None);
    assert_eq!(checked_memory_size::<u64>(usize::MAX / 8), None);
    assert_eq!(checked_memory_size::<u8>(usize::MAX / 26), None);
}

#[test]
fn uninitialized_slotmap_knows_its_capacity() {
    let sut = RelocatableSlotMap::<u64>::new_uninit(9);
    assert_eq!(sut.capacity(), 9);
    assert!(!sut.is_initialized());
}

#[test]
fn init_succeeds_with_exactly_memory_size_bytes() {
    for capacity in [0, 1, 7, 64] {
        let size = RelocatableSlotMap::<u32>::memory_size(capacity);
        let mut allocator = WorstCaseAllocator { left: size, next: 0 };
        let mut sut = RelocatableSlotMap::<u32>::new_uninit(capacity);
        assert_eq!(sut.init(&mut allocator), Ok(()));
        assert_eq!(allocator.left, 0);
        assert!(sut.is_initialized());
        assert_eq!(sut.len(), 0);
        assert_eq!(sut.capacity(), capacity);
    }
}

#[test]
fn init_fails_with_one_byte_less_than_memory_size() {
    for capacity in [0, 1, 7, 64] {
        let size = RelocatableSlotMap::<u32>::memory_size(capacity);
        let mut allocator = WorstCaseAllocator { left: size - 1, next: 0 };
        let mut sut = RelocatableSlotMap::<u32>::new_uninit(capacity);
        assert_eq!(
            sut.init(&mut allocator),
            Err(InitializationError {
                structure: BackingStructure::DataNextFreeIndex,
                cause: AllocationError::OutOfMemory
            })
        );
        assert!(!sut.is_initialized());
    }
}

#[test]
fn init_with_bump_allocator_of_memory_size_succeeds_at_any_start() {
    for start in [0, 1, 3, 8, 13, 4096, 4099] {
        let capacity = 5;
        let size = RelocatableSlotMap::<u16>::memory_size(capacity);
        let mut allocator = BumpAllocator::new(start, size);
        let mut sut = RelocatableSlotMap::<u16>::new_uninit(capacity);
        assert_eq!(sut.init(&mut allocator), Ok(()));
        assert!(sut.is_initialized());
    }
}

#[test]
fn init_with_bump_allocator_below_the_payload_fails() {
    let capacity = 5;
    let payload = 3 * index_size() * capacity + core::mem::size_of::<Option<u64>>() * capacity;
    let mut allocator = BumpAllocator::new(0, payload - 1);
    let mut sut = RelocatableSlotMap::<u64>::new_uninit(capacity);
    assert_eq!(
        sut.init(&mut allocator),
        Err(InitializationError {
            structure: BackingStructure::DataNextFreeIndex,
            cause: AllocationError::OutOfMemory
        })
    );
    assert_eq!(allocator.free_bytes(), index_size() * capacity - 1);
    let mut allocator = BumpAllocator::new(0, payload);
    let mut sut = RelocatableSlotMap::<u64>::new_uninit(capacity);
    assert_eq!(sut.init(&mut allocator), Ok(()));
    assert_eq!(allocator.free_bytes(), 0);
}

#[test]
fn init_with_bump_allocator_needs_room_between_the_structures() {
    let capacity = 5;
    assert_eq!(core::mem::size_of::<Option<u16>>(), 4);
    let payload = 3 * index_size() * capacity + 4 * capacity;
    let mut allocator = BumpAllocator::new(0, payload);
    let mut sut = RelocatableSlotMap::<u16>::new_uninit(capacity);
    assert_eq!(
        sut.init(&mut allocator),
        Err(InitializationError {
            structure: BackingStructure::DataNextFreeIndex,
            cause: AllocationError::OutOfMemory
        })
    );
    let mut allocator = BumpAllocator::new(0, payload + 4);
    let mut sut = RelocatableSlotMap::<u16>::new_uninit(capacity);
    assert_eq!(sut.init(&mut allocator), Ok(()));
    assert_eq!(allocator.free_bytes(), 0);
}

#[test]
fn init_with_bump_allocator_fails_at_the_first_structure_without_room() {
    let capacity = 4;
    let index = index_size() * capacity;
    let expected = [
        (index - 1, BackingStructure::IdxToData),
        (index, BackingStructure::IdxToDataNextFreeIndex),
        (2 * index, BackingStructure::Data),
        (2 * index + 16 * capacity, BackingStructure::DataNextFreeIndex),
    ];
    for (size, structure) in expected {
        let mut allocator = BumpAllocator::new(0, size);
        let mut sut = RelocatableSlotMap::<u64>::new_uninit(capacity);
        assert_eq!(
            sut.init(&mut allocator),
            Err(InitializationError { structure, cause: AllocationError::OutOfMemory })
        );
    }
}

#[test]
fn init_names_the_structure_that_could_not_be_placed() {
    let structures = [
        BackingStructure::IdxToData,
        BackingStructure::IdxToDataNextFreeIndex,
        BackingStructure::Data,
        BackingStructure::DataNextFreeIndex,
    ];
    for (n, structure) in structures.iter().enumerate() {
        let mut allocator = FailingAllocator {
            fails_at: n,
            requests: 0,
            cause: AllocationError::InternalError,
        };
        let mut sut = RelocatableSlotMap::<u64>::new_uninit(3);
        assert_eq!(
            sut.init(&mut allocator),
            Err(InitializationError { structure: *structure, cause: AllocationError::InternalError })
        );
        assert_eq!(allocator.requests, n + 1);
        assert!(!sut.is_initialized());
    }
}

#[test]
fn init_passes_on_each_cause_of_the_allocator() {
    for cause in [
        AllocationError::SizeIsZero,
        AllocationError::SizeTooLarge,
        AllocationError::AlignmentFailure,
        AllocationError::OutOfMemory,
        AllocationError::InternalError,
    ] {
        let mut allocator = FailingAllocator { fails_at: 0, requests: 0, cause };
        let mut sut = RelocatableSlotMap::<u64>::new_uninit(3);
        assert_eq!(
            sut.init(&mut allocator),
            Err(InitializationError { structure: BackingStructure::IdxToData, cause })
        );
    }
}

#[test]
fn init_of_a_capacity_whose_bytes_cannot_be_counted_is_too_large() {
    let mut allocator = FailingAllocator {
        fails_at: usize::MAX,
        requests: 0,
        cause: AllocationError::InternalError,
    };
    let mut sut = RelocatableSlotMap::<u8>::new_uninit(usize::MAX / index_size() + 1);
    assert_eq!(
        sut.init(&mut allocator),
        Err(InitializationError {
            structure: BackingStructure::IdxToData,
            cause: AllocationError::SizeTooLarge
        })
    );
    assert_eq!(allocator.requests, 0);

    let mut sut = RelocatableSlotMap::<[u64; 4]>::new_uninit(usize::MAX / index_size());
    assert_eq!(
        sut.init(&mut allocator),
        Err(InitializationError {
            structure: BackingStructure::Data,
            cause: AllocationError::SizeTooLarge
        })
    );
    assert_eq!(allocator.requests, 2);
}

#[test]
fn structures_are_placed_in_their_order() {
    let mut allocator = BumpAllocator::new(0, 1000);
    let capacity = 4;
    let index = index_size() * capacity;
    let placement = place_structures::<u64, BumpAllocator>(&mut allocator, capacity);
    assert_eq!(
        placement,
        Ok(Placement {
            idx_to_data: 0,
            idx_to_data_next_free_index: index,
            data: 2 * index,
            data_next_free_index: 2 * index + core::mem::size_of::<Option<u64>>() * capacity,
        })
    );
}

#[test]
fn initialized_slotmap_works_like_the_one_on_the_heap() {
    let capacity = 4;
    let size = RelocatableSlotMap::<u64>::memory_size(capacity);
    let mut allocator = BumpAllocator::new(64, size);
    let mut sut = RelocatableSlotMap::<u64>::new_uninit(capacity);
    assert_eq!(sut.init(&mut allocator), Ok(()));

    for (n, value) in [10, 20, 30, 40].iter().enumerate() {
        assert_eq!(sut.insert(*value), Some(SlotMapKey::new(n)));
    }
    assert_eq!(sut.insert(50), None);
    assert!(sut.remove(SlotMapKey::new(1)));
    assert_eq!(sut.insert(99), Some(SlotMapKey::new(1)));
    assert_eq!(sut.get(SlotMapKey::new(1)), Some(&99));
    assert!(sut.is_full());

    let mut entries = vec![];
    let mut iter = sut.iter();
    while let Some((key, value)) = iter.next() {
        entries.push((key.value(), *value));
    }
    assert_eq!(entries, vec![(0, 10), (1, 99), (2, 30), (3, 40)]);
}

#[test]
fn slotmap_records_where_its_structures_were_placed() {
    let capacity = 4;
    let index = index_size() * capacity;
    let size = RelocatableSlotMap::<u64>::memory_size(capacity);
    let mut allocator = BumpAllocator::new(16, size);
    let mut sut = RelocatableSlotMap::<u64>::new_uninit(capacity);
    assert_eq!(sut.placement(), None);
    assert_eq!(sut.init(&mut allocator), Ok(()));
    assert_eq!(
        sut.placement(),
        Some(Placement {
            idx_to_data: 16,
            idx_to_data_next_free_index: 16 + index,
            data: 16 + 2 * index,
            data_next_free_index: 16 + 2 * index + 16 * capacity,
        })
    );
}

#[test]
fn failed_init_leaves_the_slotmap_uninitialized() {
    let mut allocator = BumpAllocator::new(0, 40);
    let mut sut = RelocatableSlotMap::<u64>::new_uninit(4);
    assert!(sut.init(&mut allocator).is_err());
    assert!(!sut.is_initialized());
    assert_eq!(sut.placement(), None);
    assert_eq!(sut.capacity(), 4);
    assert_eq!(allocator.free_bytes(), 8);
}
