//! The handle under which a slot map stores a value.

use vstd::prelude::*;

verus! {

/// Identifies a value of a slot map.
///
/// A key is a bare index. It carries no information on whether a value is stored under it;
/// a key obtained before a removal equals the key that a later insertion recycles.
#[derive(Debug, Clone, Copy, PartialEq, Eq, Structural, PartialOrd, Ord, Hash)]
pub struct SlotMapKey(usize);

impl View for SlotMapKey {
    type V = usize;

    closed spec fn view(&self) -> usize {
        self.0
    }
}

impl SlotMapKey {
    /// Creates the key with the given numeric value.
    pub fn new(value: usize) -> (key: Self)
        ensures
            key@ == value,
    {
        Self(value)
    }

    /// Returns the numeric value of the key.
    pub fn value(&self) -> (value: usize)
        ensures
            value == self@,
    {
        self.0
    }

    /// Keys are equal exactly when their numeric values are.
    pub proof fn lemma_view_injective(a: SlotMapKey, b: SlotMapKey)
        ensures
            a@ == b@ <==> a == b,
    {
    }
}

} // verus!
