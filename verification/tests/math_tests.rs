use building_blocks::math::{checked_align, checked_unaligned_mem_size};

#[test]
fn unaligned_mem_size_adds_room_for_the_alignment() {
    assert_eq!(checked_unaligned_mem_size::<u8>(5), Some(5));
    assert_eq!(checked_unaligned_mem_size::<u32>(3), Some(15));
    assert_eq!(checked_unaligned_mem_size::<u32>(0), Some(3));
    assert_eq!(
        checked_unaligned_mem_size::<u64>(3),
        Some(3 * 8 + core::mem::align_of::<u64>() - 1)
    );
}

#[test]
fn unaligned_mem_size_that_does_not_fit_is_none() {
    assert_eq!(checked_unaligned_mem_size::<u32>(usize::MAX), None);
    assert_eq!(checked_unaligned_mem_size::<u32>(usize::MAX / 4 + 1), None);
    assert_eq!(checked_unaligned_mem_size::<u32>(usize::MAX / 4), Some(usize::MAX));
    assert_eq!(
        checked_unaligned_mem_size::<u32>(usize::MAX / 4 - 1),
        Some(usize::MAX - 4)
    );
    assert_eq!(checked_unaligned_mem_size::<u8>(usize::MAX), Some(usize::MAX));
}

#[test]
fn align_raises_to_the_next_multiple() {
    assert_eq!(checked_align(13, 8), Some(16));
    assert_eq!(checked_align(16, 8), Some(16));
    assert_eq!(checked_align(17, 8), Some(24));
    assert_eq!(checked_align(0, 4), Some(0));
    assert_eq!(checked_align(5, 1), Some(5));
    assert_eq!(checked_align(10, 3), Some(12));
}

#[test]
fn align_that_does_not_fit_is_none() {
    assert_eq!(checked_align(usize::MAX, 8), None);
    assert_eq!(checked_align(usize::MAX - 6, 8), None);
    assert_eq!(checked_align(usize::MAX - 7, 8), Some(usize::MAX - 7));
    assert_eq!(checked_align(usize::MAX, 1), Some(usize::MAX));
    assert_eq!(checked_align(usize::MAX - 2, 3), Some(usize::MAX));
}
