//! The capability a container needs to place its backing structures: reserving byte ranges.

use crate::math::{checked_align, lemma_align_bounds, spec_align};
use vstd::prelude::*;

verus! {

/// Why an allocator could not hand out a byte range.
#[derive(Debug, Clone, Copy, PartialEq, Eq, Structural, Hash)]
pub enum AllocationError {
    SizeIsZero,
    SizeTooLarge,
    AlignmentFailure,
    OutOfMemory,
    InternalError,
}

/// Hands out byte ranges of an arena.
///
/// An allocator is a value: what a request returns and what the allocator is afterwards are
/// functions of the allocator and the request. Containers state their own behaviour over
/// these two functions. As they stand in the trait the functions say nothing; an allocator
/// that is to be reasoned about defines them, as [`BumpAllocator`] does.
pub trait ByteAllocator: Sized {
    /// What holds of the allocator between requests.
    open spec fn inv(&self) -> bool {
        true
    }

    /// What the request for `size` bytes at a multiple of `align` returns: the address of the
    /// range, or the reason for which there is none.
    open spec fn allocation(&self, size: usize, align: usize) -> Result<usize, AllocationError> {
        arbitrary()
    }

    /// The allocator after the request for `size` bytes at a multiple of `align`.
    open spec fn after_allocation(&self, size: usize, align: usize) -> Self {
        arbitrary()
    }

    /// Reserves `size` bytes that start at a multiple of `align`.
    fn allocate(&mut self, size: usize, align: usize) -> (place: Result<usize, AllocationError>)
        requires
            old(self).inv(),
            align > 0,
        ensures
            place == old(self).allocation(size, align),
            *final(self) == old(self).after_allocation(size, align),
            final(self).inv(),
    ;
}

/// Hands out successive byte ranges of the arena between a start address and a limit, and
/// takes none back.
#[derive(Debug)]
pub struct BumpAllocator {
    pos: usize,
    limit: usize,
}

impl BumpAllocator {
    /// The address at which the next range starts, before it is aligned.
    pub closed spec fn position(&self) -> usize {
        self.pos
    }

    /// The address behind the last byte of the arena.
    pub closed spec fn limit(&self) -> usize {
        self.limit
    }

    /// The bytes of the arena that no range holds yet.
    pub open spec fn remaining(&self) -> int {
        self.limit() - self.position()
    }

    /// The address that a range of `size` bytes at a multiple of `align` would get.
    pub open spec fn next_place(&self, align: usize) -> int {
        spec_align(self.position() as int, align as int)
    }

    /// Whether the arena still holds `size` bytes behind the next multiple of `align`.
    pub open spec fn fits(&self, size: usize, align: usize) -> bool {
        self.next_place(align) + size <= self.limit()
    }

    /// Creates the allocator of the arena of `size` bytes that starts at `start`.
    pub fn new(start: usize, size: usize) -> (allocator: Self)
        requires
            start + size <= usize::MAX,
        ensures
            allocator.inv(),
            allocator.position() == start,
            allocator.limit() == start + size,
    {
        Self { pos: start, limit: start + size }
    }

    /// The number of bytes that no range holds yet.
    pub fn free_bytes(&self) -> (bytes: usize)
        requires
            self.inv(),
        ensures
            bytes == self.remaining(),
    {
        self.limit - self.pos
    }

    /// The position never passes the limit.
    pub proof fn lemma_limits(&self)
        requires
            self.inv(),
        ensures
            self.position() <= self.limit(),
            self.remaining() >= 0,
    {
    }

    /// A request keeps the allocator valid.
    pub proof fn lemma_inv(&self, size: usize, align: usize)
        requires
            self.inv(),
            align > 0,
        ensures
            self.after_allocation(size, align).inv(),
    {
        lemma_align_bounds(self.pos as int, align as int);
    }

    /// A request moves the position to the end of the range it got, and a failed one leaves
    /// the allocator as it was.
    pub proof fn lemma_after_allocation(&self, size: usize, align: usize)
        requires
            self.inv(),
            align > 0,
        ensures
            self.after_allocation(size, align).limit() == self.limit(),
            self.fits(size, align) ==> self.after_allocation(size, align).position()
                == self.next_place(align) + size,
            !self.fits(size, align) ==> self.after_allocation(size, align) == *self,
    {
    }
}

impl ByteAllocator for BumpAllocator {
    closed spec fn inv(&self) -> bool {
        self.pos <= self.limit
    }

    open spec fn allocation(&self, size: usize, align: usize) -> Result<usize, AllocationError> {
        if self.fits(size, align) {
            Ok(self.next_place(align) as usize)
        } else {
            Err(AllocationError::OutOfMemory)
        }
    }

    closed spec fn after_allocation(&self, size: usize, align: usize) -> Self {
        if self.fits(size, align) {
            BumpAllocator { pos: (self.next_place(align) + size) as usize, limit: self.limit }
        } else {
            *self
        }
    }

    fn allocate(&mut self, size: usize, align: usize) -> (place: Result<usize, AllocationError>) {
        proof {
            lemma_align_bounds(self.pos as int, align as int);
        }
        match checked_align(self.pos, align) {
            None => Err(AllocationError::OutOfMemory),
            Some(start) => {
                if start <= self.limit && size <= self.limit - start {
                    self.pos = start + size;
                    Ok(start)
                } else {
                    Err(AllocationError::OutOfMemory)
                }
            },
        }
    }
}

} // verus!
