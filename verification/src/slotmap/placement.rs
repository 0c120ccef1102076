//! Where the four backing structures of a slot map go in an arena: what is asked of the
//! allocator, in which order, and how much memory that takes.

use crate::allocator::{AllocationError, BumpAllocator, ByteAllocator};
use crate::math::{
    checked_unaligned_mem_size, lemma_align_bounds, spec_array_size, spec_unaligned_mem_size,
};
use vstd::layout::{align_nonzero, align_of, layout_for_type_is_valid, size_of};
use vstd::prelude::*;

verus! {

/// One of the four backing structures of a slot map, in the order in which they are placed.
#[derive(Debug, Clone, Copy, PartialEq, Eq, Structural, Hash)]
pub enum BackingStructure {
    /// The sequence that holds for each key the slot of its value.
    IdxToData,
    /// The queue of the keys without a value.
    IdxToDataNextFreeIndex,
    /// The sequence of the values.
    Data,
    /// The queue of the slots without a value.
    DataNextFreeIndex,
}

/// The backing structure that could not be placed, and what the allocator said.
#[derive(Debug, Clone, Copy, PartialEq, Eq, Structural, Hash)]
pub struct InitializationError {
    pub structure: BackingStructure,
    pub cause: AllocationError,
}

/// The addresses that the allocator handed out for the four backing structures.
#[derive(Debug, Clone, Copy, PartialEq, Eq, Structural, Hash)]
pub struct Placement {
    pub idx_to_data: usize,
    pub idx_to_data_next_free_index: usize,
    pub data: usize,
    pub data_next_free_index: usize,
}

/// The size of one element of a backing structure: the values are `Option<T>`, the rest
/// are indices.
pub open spec fn element_size<T>(structure: BackingStructure) -> nat {
    match structure {
        BackingStructure::Data => size_of::<Option<T>>(),
        _ => size_of::<usize>(),
    }
}

/// The alignment of one element of a backing structure.
pub open spec fn element_align<T>(structure: BackingStructure) -> nat {
    match structure {
        BackingStructure::Data => align_of::<Option<T>>(),
        _ => align_of::<usize>(),
    }
}

/// The bytes asked of the allocator for a backing structure of `capacity` elements.
pub open spec fn request_size<T>(structure: BackingStructure, capacity: usize) -> int {
    element_size::<T>(structure) * capacity
}

/// The sizes and alignments of the elements are numbers of the machine.
pub open spec fn layout_fits<T>() -> bool {
    &&& size_of::<usize>() <= usize::MAX
    &&& align_of::<usize>() <= usize::MAX
    &&& size_of::<Option<T>>() <= usize::MAX
    &&& align_of::<Option<T>>() <= usize::MAX
}

/// What placing one backing structure returns, and the allocator afterwards. A structure
/// whose bytes cannot be counted in `usize` is too large, and the allocator is not asked.
pub open spec fn place_one<T, A: ByteAllocator>(
    allocator: A,
    structure: BackingStructure,
    capacity: usize,
) -> (Result<usize, InitializationError>, A) {
    let size = request_size::<T>(structure, capacity);
    let align = element_align::<T>(structure) as usize;
    if size > usize::MAX {
        (Err(InitializationError { structure, cause: AllocationError::SizeTooLarge }), allocator)
    } else {
        (
            match allocator.allocation(size as usize, align) {
                Ok(place) => Ok(place),
                Err(cause) => Err(InitializationError { structure, cause }),
            },
            allocator.after_allocation(size as usize, align),
        )
    }
}

/// What placing the four backing structures returns, and the allocator afterwards. They
/// are placed in their order, and the first that cannot be placed ends it.
pub open spec fn place_all<T, A: ByteAllocator>(allocator: A, capacity: usize) -> (
    Result<Placement, InitializationError>,
    A,
) {
    let (first, a1) = place_one::<T, A>(allocator, BackingStructure::IdxToData, capacity);
    match first {
        Err(e) => (Err(e), a1),
        Ok(idx_to_data) => {
            let (second, a2) = place_one::<T, A>(
                a1,
                BackingStructure::IdxToDataNextFreeIndex,
                capacity,
            );
            match second {
                Err(e) => (Err(e), a2),
                Ok(idx_to_data_next_free_index) => {
                    let (third, a3) = place_one::<T, A>(a2, BackingStructure::Data, capacity);
                    match third {
                        Err(e) => (Err(e), a3),
                        Ok(data) => {
                            let (fourth, a4) = place_one::<T, A>(
                                a3,
                                BackingStructure::DataNextFreeIndex,
                                capacity,
                            );
                            match fourth {
                                Err(e) => (Err(e), a4),
                                Ok(data_next_free_index) => (
                                    Ok(
                                        Placement {
                                            idx_to_data,
                                            idx_to_data_next_free_index,
                                            data,
                                            data_next_free_index,
                                        },
                                    ),
                                    a4,
                                ),
                            }
                        },
                    }
                },
            }
        },
    }
}

/// The bytes that a slot map of the given capacity takes from an allocator at most: the
/// footprints of its four backing structures, each with room for its alignment.
pub open spec fn spec_memory_size<T>(capacity: usize) -> int {
    spec_unaligned_mem_size::<usize>(capacity) + spec_unaligned_mem_size::<usize>(capacity)
        + spec_unaligned_mem_size::<Option<T>>(capacity) + spec_unaligned_mem_size::<usize>(
        capacity,
    )
}

/// The bytes that the four backing structures hold themselves, without room for alignment.
pub open spec fn spec_payload_size<T>(capacity: usize) -> int {
    spec_array_size::<usize>(capacity) + spec_array_size::<usize>(capacity) + spec_array_size::<
        Option<T>,
    >(capacity) + spec_array_size::<usize>(capacity)
}

/// Asks the allocator for the place of one backing structure.
pub fn place<T, A: ByteAllocator>(
    allocator: &mut A,
    structure: BackingStructure,
    capacity: usize,
) -> (place: Result<usize, InitializationError>)
    requires
        old(allocator).inv(),
    ensures
        final(allocator).inv(),
        (place, *final(allocator)) == place_one::<T, A>(*old(allocator), structure, capacity),
        layout_fits::<T>(),
{
    layout_for_type_is_valid::<usize>();
    layout_for_type_is_valid::<Option<T>>();
    let (element, align): (usize, usize) = match structure {
        BackingStructure::Data => (
            core::mem::size_of::<Option<T>>(),
            core::mem::align_of::<Option<T>>(),
        ),
        _ => (core::mem::size_of::<usize>(), core::mem::align_of::<usize>()),
    };
    match element.checked_mul(capacity) {
        None => Err(InitializationError { structure, cause: AllocationError::SizeTooLarge }),
        Some(size) => match allocator.allocate(size, align) {
            Ok(place) => Ok(place),
            Err(cause) => Err(InitializationError { structure, cause }),
        },
    }
}

/// Asks the allocator for the places of the four backing structures, in their order, and
/// stops at the first that it cannot place.
pub fn place_structures<T, A: ByteAllocator>(allocator: &mut A, capacity: usize) -> (placement:
    Result<Placement, InitializationError>)
    requires
        old(allocator).inv(),
    ensures
        final(allocator).inv(),
        (placement, *final(allocator)) == place_all::<T, A>(*old(allocator), capacity),
        layout_fits::<T>(),
{
    let idx_to_data = match place::<T, A>(allocator, BackingStructure::IdxToData, capacity) {
        Ok(place) => place,
        Err(e) => {
            return Err(e);
        },
    };
    let idx_to_data_next_free_index = match place::<T, A>(
        allocator,
        BackingStructure::IdxToDataNextFreeIndex,
        capacity,
    ) {
        Ok(place) => place,
        Err(e) => {
            return Err(e);
        },
    };
    let data = match place::<T, A>(allocator, BackingStructure::Data, capacity) {
        Ok(place) => place,
        Err(e) => {
            return Err(e);
        },
    };
    let data_next_free_index = match place::<T, A>(
        allocator,
        BackingStructure::DataNextFreeIndex,
        capacity,
    ) {
        Ok(place) => place,
        Err(e) => {
            return Err(e);
        },
    };
    Ok(Placement { idx_to_data, idx_to_data_next_free_index, data, data_next_free_index })
}

/// Returns the bytes that a slot map of the given capacity takes from an allocator at
/// most, or `None` where they cannot be counted in `usize`.
pub fn checked_memory_size<T>(capacity: usize) -> (size: Option<usize>)
    ensures
        match size {
            Some(n) => n == spec_memory_size::<T>(capacity),
            None => spec_memory_size::<T>(capacity) > usize::MAX,
        },
        layout_fits::<T>(),
{
    layout_for_type_is_valid::<usize>();
    layout_for_type_is_valid::<Option<T>>();
    let index_size: usize = match checked_unaligned_mem_size::<usize>(capacity) {
        Some(n) => n,
        None => {
            return None;
        },
    };
    let value_size: usize = match checked_unaligned_mem_size::<Option<T>>(capacity) {
        Some(n) => n,
        None => {
            return None;
        },
    };
    let two: usize = match index_size.checked_add(index_size) {
        Some(n) => n,
        None => {
            return None;
        },
    };
    let three: usize = match two.checked_add(value_size) {
        Some(n) => n,
        None => {
            return None;
        },
    };
    three.checked_add(index_size)
}

/// One request to a bump allocator takes no more than the bytes asked for and the room
/// for their alignment, and no less than the bytes asked for.
pub proof fn lemma_bump_place_one<T>(
    allocator: BumpAllocator,
    structure: BackingStructure,
    capacity: usize,
)
    requires
        allocator.inv(),
        layout_fits::<T>(),
    ensures
        ({
            let (placed, after) = place_one::<T, BumpAllocator>(allocator, structure, capacity);
            let size = request_size::<T>(structure, capacity);
            let room = size + element_align::<T>(structure) - 1;
            &&& after.inv()
            &&& after.limit() == allocator.limit()
            &&& allocator.remaining() >= room ==> placed is Ok && after.remaining()
                >= allocator.remaining() - room
            &&& placed is Ok ==> after.remaining() <= allocator.remaining() - size
            &&& placed is Err ==> after == allocator && allocator.remaining() < room
        }),
{
    broadcast use align_nonzero;

    let size = request_size::<T>(structure, capacity);
    let align = element_align::<T>(structure) as usize;
    assert(size >= 0) by (nonlinear_arith)
        requires
            size == element_size::<T>(structure) * capacity,
    ;
    assert(align > 0);
    lemma_align_bounds(allocator.position() as int, align as int);
    if size <= usize::MAX {
        allocator.lemma_after_allocation(size as usize, align);
        allocator.lemma_inv(size as usize, align);
    } else {
        allocator.lemma_limits();
    }
}

/// An arena with as many free bytes as `spec_memory_size` says has room for the four
/// backing structures, wherever it starts.
pub proof fn lemma_bump_places_all<T>(allocator: BumpAllocator, capacity: usize)
    requires
        allocator.inv(),
        layout_fits::<T>(),
        allocator.remaining() >= spec_memory_size::<T>(capacity),
    ensures
        place_all::<T, BumpAllocator>(allocator, capacity).0 is Ok,
{
    let (_, a1) = place_one::<T, BumpAllocator>(allocator, BackingStructure::IdxToData, capacity);
    let (_, a2) = place_one::<T, BumpAllocator>(
        a1,
        BackingStructure::IdxToDataNextFreeIndex,
        capacity,
    );
    let (_, a3) = place_one::<T, BumpAllocator>(a2, BackingStructure::Data, capacity);
    lemma_request_sizes::<T>(capacity);
    lemma_bump_place_one::<T>(allocator, BackingStructure::IdxToData, capacity);
    lemma_bump_place_one::<T>(a1, BackingStructure::IdxToDataNextFreeIndex, capacity);
    lemma_bump_place_one::<T>(a2, BackingStructure::Data, capacity);
    lemma_bump_place_one::<T>(a3, BackingStructure::DataNextFreeIndex, capacity);
}

/// An arena with fewer free bytes than the four backing structures hold themselves cannot
/// take them: one of them is not placed.
pub proof fn lemma_bump_too_small<T>(allocator: BumpAllocator, capacity: usize)
    requires
        allocator.inv(),
        layout_fits::<T>(),
        allocator.remaining() < spec_payload_size::<T>(capacity),
    ensures
        place_all::<T, BumpAllocator>(allocator, capacity).0 is Err,
{
    let (_, a1) = place_one::<T, BumpAllocator>(allocator, BackingStructure::IdxToData, capacity);
    let (_, a2) = place_one::<T, BumpAllocator>(
        a1,
        BackingStructure::IdxToDataNextFreeIndex,
        capacity,
    );
    let (_, a3) = place_one::<T, BumpAllocator>(a2, BackingStructure::Data, capacity);
    let (_, a4) = place_one::<T, BumpAllocator>(a3, BackingStructure::DataNextFreeIndex, capacity);
    lemma_request_sizes::<T>(capacity);
    lemma_bump_place_one::<T>(allocator, BackingStructure::IdxToData, capacity);
    lemma_bump_place_one::<T>(a1, BackingStructure::IdxToDataNextFreeIndex, capacity);
    lemma_bump_place_one::<T>(a2, BackingStructure::Data, capacity);
    lemma_bump_place_one::<T>(a3, BackingStructure::DataNextFreeIndex, capacity);
    a4.lemma_limits();
}

/// The requests add up to the payload, and with the room for alignment to the memory size.
pub proof fn lemma_request_sizes<T>(capacity: usize)
    ensures
        request_size::<T>(BackingStructure::IdxToData, capacity) == spec_array_size::<usize>(
            capacity,
        ),
        request_size::<T>(BackingStructure::IdxToDataNextFreeIndex, capacity) == spec_array_size::<
            usize,
        >(capacity),
        request_size::<T>(BackingStructure::Data, capacity) == spec_array_size::<Option<T>>(
            capacity,
        ),
        request_size::<T>(BackingStructure::DataNextFreeIndex, capacity) == spec_array_size::<
            usize,
        >(capacity),
        spec_array_size::<usize>(capacity) >= 0,
        spec_array_size::<Option<T>>(capacity) >= 0,
        spec_payload_size::<T>(capacity) <= spec_memory_size::<T>(capacity),
{
    broadcast use align_nonzero;

    assert(size_of::<usize>() * capacity >= 0) by (nonlinear_arith);
    assert(size_of::<Option<T>>() * capacity >= 0) by (nonlinear_arith);
    assert(align_of::<usize>() > 0);
    assert(align_of::<Option<T>>() > 0);
}

} // verus!
