//! How a container refers to its backing structures.
//!
//! A container on the heap owns them. A container that is to live in memory shared between
//! processes records where in its arena each structure was placed, which it learns when it
//! is initialized.

use vstd::prelude::*;

verus! {

/// A reference of a container to one of its backing structures.
pub trait PointerTrait {
    /// Whether the pointer refers to a structure.
    spec fn is_bound(&self) -> bool;
}

/// The pointer of a container whose structures live on the heap: it is bound from the start.
#[derive(Debug)]
pub struct OwningPointer {}

impl OwningPointer {
    /// Creates the pointer of a container on the heap.
    pub fn new() -> (pointer: Self)
        ensures
            pointer.is_bound(),
    {
        OwningPointer {  }
    }
}

impl PointerTrait for OwningPointer {
    open spec fn is_bound(&self) -> bool {
        true
    }
}

/// The pointer of a container whose structures live in an arena: the place of the structure
/// there, once the container is initialized.
#[derive(Debug)]
pub struct RelocatablePointer {
    place: Option<usize>,
}

impl RelocatablePointer {
    /// The place of the structure, where the pointer is bound.
    pub closed spec fn place(&self) -> Option<usize> {
        self.place
    }

    /// Creates the pointer of a container that is not initialized yet.
    pub fn new_uninit() -> (pointer: Self)
        ensures
            pointer.place() is None,
    {
        RelocatablePointer { place: None }
    }

    /// Binds the pointer to the structure at `place`.
    pub fn init(&mut self, place: usize)
        ensures
            final(self).place() == Some(place),
    {
        self.place = Some(place);
    }

    /// Returns the place of the structure, or `None` before the pointer is bound.
    pub fn get(&self) -> (place: Option<usize>)
        ensures
            place == self.place(),
    {
        self.place
    }
}

impl PointerTrait for RelocatablePointer {
    open spec fn is_bound(&self) -> bool {
        self.place() is Some
    }
}

} // verus!
