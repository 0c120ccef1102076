//! Byte arithmetic for placing arrays in an arena: footprints and alignment.

use vstd::layout::{align_of, layout_for_type_is_valid, size_of};
use vstd::prelude::*;

verus! {

/// The bytes that an array of `array_capacity` elements of `T` takes when the start of the
/// memory it is placed in may have any alignment.
pub open spec fn spec_unaligned_mem_size<T>(array_capacity: usize) -> int {
    size_of::<T>() * array_capacity + align_of::<T>() - 1
}

/// The bytes that an array of `array_capacity` elements of `T` takes at an aligned address.
pub open spec fn spec_array_size<T>(array_capacity: usize) -> int {
    size_of::<T>() * array_capacity
}

/// The smallest multiple of `alignment` that is not below `value`.
pub open spec fn spec_align(value: int, alignment: int) -> int
    recommends
        alignment > 0,
{
    if value % alignment == 0 {
        value
    } else {
        value + alignment - value % alignment
    }
}

/// What `iceoryx2_bb_elementary::math::unaligned_mem_size` returns, as its source computes
/// it and without proof: the size of `array_capacity` elements of `T` plus the alignment of
/// `T` less one. The function adds before it subtracts, so the sum of the sizes and the
/// alignment has to fit in `usize`.
pub assume_specification<T>[ iceoryx2_bb_elementary::math::unaligned_mem_size::<T> ](
    array_capacity: usize,
) -> (size: usize)
    requires
        size_of::<T>() * array_capacity + align_of::<T>() <= usize::MAX,
    ensures
        size == spec_unaligned_mem_size::<T>(array_capacity),
;

/// What `iceoryx2_bb_elementary::math::align` returns, as its source computes it and
/// without proof: `value` itself where it is a multiple of `alignment`, else `value` raised
/// to the next multiple. The function divides by `alignment`, which must not be zero, and
/// where it raises `value` it adds `alignment` first, so that sum has to fit in `usize`.
pub assume_specification[ iceoryx2_bb_elementary::math::align ](
    value: usize,
    alignment: usize,
) -> (aligned: usize)
    requires
        alignment > 0,
        value % alignment != 0 ==> value + alignment <= usize::MAX,
    ensures
        aligned == spec_align(value as int, alignment as int),
;

/// The footprint of an array whose start may have any alignment, or `None` where it does not
/// fit in `usize`.
pub fn checked_unaligned_mem_size<T>(array_capacity: usize) -> (size: Option<usize>)
    ensures
        match size {
            Some(n) => n == spec_unaligned_mem_size::<T>(array_capacity),
            None => spec_unaligned_mem_size::<T>(array_capacity) > usize::MAX,
        },
{
    layout_for_type_is_valid::<T>();
    let element: usize = core::mem::size_of::<T>();
    let alignment: usize = core::mem::align_of::<T>();
    match element.checked_mul(array_capacity) {
        None => None,
        Some(bytes) => if bytes <= usize::MAX - alignment {
            Some(iceoryx2_bb_elementary::math::unaligned_mem_size::<T>(array_capacity))
        } else if bytes == usize::MAX - alignment + 1 {
            // The sum of bytes and alignment is out of range; the footprint itself is not.
            Some(usize::MAX)
        } else {
            None
        },
    }
}

/// `value` raised to the next multiple of `alignment`, or `None` where that does not fit in
/// `usize`.
pub fn checked_align(value: usize, alignment: usize) -> (aligned: Option<usize>)
    requires
        alignment > 0,
    ensures
        match aligned {
            Some(a) => a == spec_align(value as int, alignment as int),
            None => spec_align(value as int, alignment as int) > usize::MAX,
        },
{
    let rest: usize = value % alignment;
    if rest == 0 || value <= usize::MAX - alignment {
        Some(iceoryx2_bb_elementary::math::align(value, alignment))
    } else if value <= usize::MAX - (alignment - rest) {
        // The sum of value and alignment is out of range; the aligned value itself is not.
        Some(value + (alignment - rest))
    } else {
        None
    }
}

/// Aligning moves a value up by less than the alignment, onto a multiple of it.
pub proof fn lemma_align_bounds(value: int, alignment: int)
    requires
        value >= 0,
        alignment > 0,
    ensures
        value <= spec_align(value, alignment) < value + alignment,
        spec_align(value, alignment) % alignment == 0,
{
    let rest = value % alignment;
    assert(0 <= rest < alignment);
    if rest != 0 {
        assert((value + alignment - rest) % alignment == 0) by (nonlinear_arith)
            requires
                rest == value % alignment,
                alignment > 0,
        ;
    }
}

} // verus!
