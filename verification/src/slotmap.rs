//! Containers that give every stored value a key which stays valid while other values are
//! inserted and removed.
//!
//!  * [`SlotMap`] has a capacity fixed at run time and keeps its values on the heap.
//!  * [`RelocatableSlotMap`] has a capacity fixed at run time and takes the place for its
//!    backing structures from an allocator, in a step of its own.
//!  * [`FixedSizeSlotMap`] has a capacity fixed at compile time and brings its place along.

pub mod details;
pub mod placement;
pub mod store;

use crate::allocator::BumpAllocator;
pub use crate::key::SlotMapKey;
use crate::model::SlotMapModel;
use crate::pointer::{OwningPointer, RelocatablePointer};
use crate::slotmap::placement::{checked_memory_size, lemma_bump_places_all, spec_memory_size};
use vstd::prelude::*;

verus! {

/// A slot map with a capacity fixed at run time whose values live on the heap.
pub type SlotMap<T> = details::MetaSlotMap<T, OwningPointer>;

/// A slot map with a capacity fixed at run time whose backing structures are placed in an
/// arena by [`RelocatableSlotMap::init`](details::MetaSlotMap::init).
pub type RelocatableSlotMap<T> = details::MetaSlotMap<T, RelocatablePointer>;

/// A slot map with a capacity fixed at compile time that brings the place for its backing
/// structures along: it is initialized when it is created and takes nothing from outside.
#[derive(Debug)]
pub struct FixedSizeSlotMap<T, const CAPACITY: usize> {
    state: RelocatableSlotMap<T>,
}

impl<T, const CAPACITY: usize> View for FixedSizeSlotMap<T, CAPACITY> {
    type V = SlotMapModel<T>;

    closed spec fn view(&self) -> SlotMapModel<T> {
        self.state@
    }
}

impl<T, const CAPACITY: usize> FixedSizeSlotMap<T, CAPACITY> {
    /// The slot map inside is initialized, well-formed and of capacity `CAPACITY`.
    pub closed spec fn wf(&self) -> bool {
        &&& self.state.wf()
        &&& self.state.spec_capacity() == CAPACITY
    }

    /// The slot map inside.
    pub closed spec fn state(&self) -> &RelocatableSlotMap<T> {
        &self.state
    }

    /// The model of a well-formed slot map is well-formed, with the capacity `CAPACITY`.
    pub proof fn lemma_view_wf(&self)
        requires
            self.wf(),
        ensures
            self@.wf(),
            self@.capacity == CAPACITY,
            self@ == self.state()@,
            self.state().wf(),
    {
        self.state.lemma_view_wf();
    }

    /// Creates a new empty slot map.
    ///
    /// The backing structures go into an arena of exactly
    /// [`memory_size`](details::MetaSlotMap::memory_size) bytes that belongs to the slot map;
    /// their places count from its start. The arena always has room for them, so the
    /// initialization cannot fail.
    pub fn new() -> (slotmap: Self)
        requires
            spec_memory_size::<T>(CAPACITY) <= usize::MAX,
        ensures
            slotmap.wf(),
            slotmap@ == SlotMapModel::<T>::new(CAPACITY),
    {
        let mut state = RelocatableSlotMap::<T>::new_uninit(CAPACITY);
        let size: usize = RelocatableSlotMap::<T>::memory_size(CAPACITY);
        let mut allocator = BumpAllocator::new(0, size);
        proof {
            lemma_bump_places_all::<T>(allocator, CAPACITY);
        }
        match state.init(&mut allocator) {
            Ok(()) => Self { state },
            Err(_) => unreached(),
        }
    }

    /// Creates a new empty slot map, or returns `None` where the bytes that its backing
    /// structures take cannot be counted in `usize`.
    pub fn try_new() -> (slotmap: Option<Self>)
        ensures
            match slotmap {
                Some(s) => {
                    &&& spec_memory_size::<T>(CAPACITY) <= usize::MAX
                    &&& s.wf()
                    &&& s@ == SlotMapModel::<T>::new(CAPACITY)
                },
                None => spec_memory_size::<T>(CAPACITY) > usize::MAX,
            },
    {
        match checked_memory_size::<T>(CAPACITY) {
            Some(_) => Some(Self::new()),
            None => None,
        }
    }

    /// Returns an iterator over all entries, in the order of their keys.
    pub fn iter(&self) -> (iter: details::RelocatableIter<'_, T>)
        requires
            self.wf(),
        ensures
            iter.wf(),
            iter.slotmap() == self.state(),
            iter.position() == 0,
            iter.remaining() == self@.keys(),
    {
        self.state.iter()
    }

    /// Returns `true` if a value is stored under `key`, otherwise `false`.
    pub fn contains(&self, key: SlotMapKey) -> (contained: bool)
        requires
            self.wf(),
        ensures
            contained == self@.contains(key@),
    {
        self.state.contains(key)
    }

    /// Returns a reference to the value stored under `key`, or `None` where there is none.
    pub fn get(&self, key: SlotMapKey) -> (value: Option<&T>)
        requires
            self.wf(),
        ensures
            match value {
                Some(v) => self@.get(key@) == Some(*v),
                None => self@.get(key@) is None,
            },
    {
        self.state.get(key)
    }

    /// Returns a mutable reference to the value stored under `key`, or `None` where there is
    /// none. What is written through the reference is the value under `key` afterwards.
    pub fn get_mut(&mut self, key: SlotMapKey) -> (value: Option<&mut T>)
        requires
            old(self).wf(),
        ensures
            final(self).wf(),
            match value {
                Some(v) => {
                    &&& old(self)@.get(key@) == Some(*v)
                    &&& final(self)@ == old(self)@.update(key@, *final(v))
                },
                None => {
                    &&& old(self)@.get(key@) is None
                    &&& final(self)@ == old(self)@
                },
            },
    {
        self.state.get_mut(key)
    }

    /// Stores `value` under the key that has been free for longest and returns that key.
    /// A full slot map returns `None` and stays as it is.
    pub fn insert(&mut self, value: T) -> (key: Option<SlotMapKey>)
        requires
            old(self).wf(),
        ensures
            final(self).wf(),
            final(self)@ == old(self)@.insert(value),
            match key {
                Some(k) => {
                    &&& old(self)@.next_key() == Some(k@)
                    &&& k@ < CAPACITY
                    &&& !old(self)@.contains(k@)
                    &&& final(self)@.entries == old(self)@.entries.insert(k@, value)
                    &&& final(self)@.free_keys == old(self)@.free_keys.drop_first()
                },
                None => {
                    &&& old(self)@.next_key() is None
                    &&& old(self)@.is_full()
                },
            },
    {
        self.state.insert(value)
    }

    /// Stores `value` under `key` and returns `true`. A key that is not below the capacity
    /// is refused: the call returns `false` and changes nothing. A value that is already
    /// stored under `key` is replaced. A free key leaves the queue of free keys.
    pub fn insert_at(&mut self, key: SlotMapKey, value: T) -> (inserted: bool)
        requires
            old(self).wf(),
        ensures
            final(self).wf(),
            final(self)@ == old(self)@.insert_at(key@, value),
            inserted == old(self)@.in_range(key@),
    {
        self.state.insert_at(key, value)
    }

    /// Removes the value stored under `key` and returns `true`; the key becomes the last of
    /// the free keys. Where no value is stored under `key`, returns `false` and changes
    /// nothing.
    pub fn remove(&mut self, key: SlotMapKey) -> (removed: bool)
        requires
            old(self).wf(),
        ensures
            final(self).wf(),
            final(self)@ == old(self)@.remove(key@),
            removed == old(self)@.contains(key@),
    {
        self.state.remove(key)
    }

    /// Returns the number of stored values.
    pub fn len(&self) -> (len: usize)
        requires
            self.wf(),
        ensures
            len == self@.len(),
            len == self@.entries.dom().len(),
    {
        self.state.len()
    }

    /// Returns the capacity.
    pub fn capacity(&self) -> (capacity: usize)
        requires
            self.wf(),
        ensures
            capacity == CAPACITY,
    {
        self.state.capacity()
    }

    /// Returns true if the container is empty, otherwise false.
    pub fn is_empty(&self) -> (empty: bool)
        requires
            self.wf(),
        ensures
            empty == self@.is_empty(),
    {
        self.state.is_empty()
    }

    /// Returns true if the container is full, otherwise false.
    pub fn is_full(&self) -> (full: bool)
        requires
            self.wf(),
        ensures
            full == self@.is_full(),
    {
        self.state.is_full()
    }
}

} // verus!
