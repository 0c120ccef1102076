//! The engine behind every slot map, whatever its storage.

use crate::allocator::ByteAllocator;
use crate::key::SlotMapKey;
use crate::model::SlotMapModel;
use crate::pointer::{OwningPointer, PointerTrait, RelocatablePointer};
use crate::slotmap::placement::{
    checked_memory_size, layout_fits, place_all, place_structures, spec_memory_size,
    InitializationError, Placement,
};
use crate::slotmap::store::{Store, INVALID_KEY};
use std::collections::VecDeque;
use vstd::prelude::*;
use vstd::seq_lib::lemma_seq_contains;

verus! {

/// The engine of a slot map. `P` says how it refers to its backing structures.
///
/// Every key indexes `idx_to_data`, which holds either [`INVALID_KEY`] or the slot of `data`
/// with the key's value. Two queues hold the keys without a value and the empty slots.
#[derive(Debug)]
pub struct MetaSlotMap<T, P: PointerTrait> {
    capacity: usize,
    idx_to_data: Vec<usize>,
    idx_to_data_next_free_index: VecDeque<usize>,
    data: Vec<Option<T>>,
    data_next_free_index: VecDeque<usize>,
    idx_to_data_ptr: P,
    idx_to_data_next_free_index_ptr: P,
    data_ptr: P,
    data_next_free_index_ptr: P,
}

impl<T, P: PointerTrait> View for MetaSlotMap<T, P> {
    type V = SlotMapModel<T>;

    closed spec fn view(&self) -> SlotMapModel<T> {
        self.store().model()
    }
}

impl<T, P: PointerTrait> MetaSlotMap<T, P> {
    /// What the backing structures hold.
    pub closed spec fn store(&self) -> Store<T> {
        Store {
            capacity: self.capacity,
            keys: self.idx_to_data@,
            free_keys: self.idx_to_data_next_free_index@,
            slots: self.data@,
            free_slots: self.data_next_free_index@,
        }
    }

    /// The four pointers to the backing structures, in the order of the structures.
    closed spec fn pointers(&self) -> (P, P, P, P) {
        (
            self.idx_to_data_ptr,
            self.idx_to_data_next_free_index_ptr,
            self.data_ptr,
            self.data_next_free_index_ptr,
        )
    }

    /// Whether all four backing structures have their place.
    pub closed spec fn is_bound(&self) -> bool {
        &&& self.idx_to_data_ptr.is_bound()
        &&& self.idx_to_data_next_free_index_ptr.is_bound()
        &&& self.data_ptr.is_bound()
        &&& self.data_next_free_index_ptr.is_bound()
    }

    /// The capacity that the slot map was created with.
    pub closed spec fn spec_capacity(&self) -> usize {
        self.capacity
    }

    /// The slot map is initialized and its invariants hold. Every operation asks for this
    /// and keeps it.
    pub closed spec fn wf(&self) -> bool {
        &&& self.is_bound()
        &&& self.store().consistent()
    }

    /// A well-formed slot map stands for a well-formed model of the same capacity, and its
    /// model is that of its backing structures.
    pub proof fn lemma_view_wf(&self)
        requires
            self.wf(),
        ensures
            self@.wf(),
            self@.capacity == self.spec_capacity(),
            self@ == self.store().model(),
            self.store().consistent(),
    {
        self.store().lemma_model_wf();
    }

    /// Fills the backing structures of a blank slot map: every key is free, every slot empty.
    fn initialize_data_structures(&mut self)
        requires
            old(self).is_bound(),
            old(self).store().blank(),
        ensures
            final(self).wf(),
            final(self)@ == SlotMapModel::<T>::new(old(self).spec_capacity()),
            final(self).spec_capacity() == old(self).spec_capacity(),
            final(self).pointers() == old(self).pointers(),
    {
        let mut n: usize = 0;
        while n < self.capacity
            invariant
                n <= self.capacity,
                self.capacity == old(self).capacity,
                self.pointers() == old(self).pointers(),
                self.is_bound(),
                self.idx_to_data@ == Seq::new(n as nat, |i: int| INVALID_KEY),
                self.data@ == Seq::<Option<T>>::new(n as nat, |i: int| None),
                self.idx_to_data_next_free_index@ == Seq::new(n as nat, |i: int| i as usize),
                self.data_next_free_index@ == Seq::new(n as nat, |i: int| i as usize),
            decreases self.capacity - n,
        {
            self.idx_to_data.push(INVALID_KEY);
            self.data.push(None);
            self.idx_to_data_next_free_index.push_back(n);
            self.data_next_free_index.push_back(n);
            n += 1;
            assert(self.idx_to_data@ =~= Seq::new(n as nat, |i: int| INVALID_KEY));
            assert(self.data@ =~= Seq::<Option<T>>::new(n as nat, |i: int| None));
            assert(self.idx_to_data_next_free_index@ =~= Seq::new(n as nat, |i: int| i as usize));
            assert(self.data_next_free_index@ =~= Seq::new(n as nat, |i: int| i as usize));
        }
        proof {
            assert(self.store() == Store::<T>::filled(self.capacity));
            Store::<T>::lemma_filled(self.capacity);
        }
    }

    /// Returns the first occupied key that is not below `start`, with its value, or `None`
    /// where no key from `start` on is occupied.
    fn next(&self, start: SlotMapKey) -> (entry: Option<(SlotMapKey, &T)>)
        requires
            self.wf(),
        ensures
            match entry {
                Some((key, value)) => {
                    &&& self@.is_next_occupied(start@, key@)
                    &&& self@.get(key@) == Some(*value)
                    &&& key@ < self.spec_capacity()
                },
                None => self@.none_occupied_from(start@),
            },
    {
        let mut n: usize = start.value();
        while n < self.capacity
            invariant
                self.wf(),
                start@ <= n,
                forall|other: usize| start@ <= other < n ==> !self@.contains(other),
            decreases self.capacity - n,
        {
            let data_idx: usize = self.idx_to_data[n];
            if data_idx != INVALID_KEY {
                return match self.data[data_idx].as_ref() {
                    Some(value) => Some((SlotMapKey::new(n), value)),
                    None => None,
                };
            }
            n += 1;
        }
        None
    }

    /// Returns an iterator over all entries, in the order of their keys.
    pub fn iter(&self) -> (iter: Iter<'_, T, P>)
        requires
            self.wf(),
        ensures
            iter.wf(),
            iter.slotmap() == self,
            iter.position() == 0,
            iter.remaining() == self@.keys(),
    {
        Iter { slotmap: self, key: SlotMapKey::new(0) }
    }

    /// Returns `true` if a value is stored under `key`, otherwise `false`. A key that is not
    /// below the capacity holds no value.
    pub fn contains(&self, key: SlotMapKey) -> (contained: bool)
        requires
            self.wf(),
        ensures
            contained == self@.contains(key@),
    {
        let index: usize = key.value();
        index < self.capacity && self.idx_to_data[index] != INVALID_KEY
    }

    /// Returns a reference to the value stored under `key`, or `None` where there is none.
    pub fn get(&self, key: SlotMapKey) -> (value: Option<&T>)
        requires
            self.wf(),
        ensures
            match value {
                Some(v) => self@.get(key@) == Some(*v),
                None => self@.get(key@) is None,
            },
    {
        let index: usize = key.value();
        if index >= self.capacity {
            return None;
        }
        let data_idx: usize = self.idx_to_data[index];
        if data_idx == INVALID_KEY {
            None
        } else {
            self.data[data_idx].as_ref()
        }
    }

    /// Returns a mutable reference to the value stored under `key`, or `None` where there is
    /// none. What is written through the reference is the value under `key` afterwards.
    pub fn get_mut(&mut self, key: SlotMapKey) -> (value: Option<&mut T>)
        requires
            old(self).wf(),
        ensures
            final(self).wf(),
            final(self).spec_capacity() == old(self).spec_capacity(),
            match value {
                Some(v) => {
                    &&& old(self)@.get(key@) == Some(*v)
                    &&& final(self)@ == old(self)@.update(key@, *final(v))
                },
                None => {
                    &&& old(self)@.get(key@) is None
                    &&& final(self)@ == old(self)@
                },
            },
    {
        let index: usize = key.value();
        if index >= self.capacity {
            return None;
        }
        let data_idx: usize = self.idx_to_data[index];
        if data_idx == INVALID_KEY {
            None
        } else {
            proof {
                let store = self.store();
                assert forall|slot: Option<T>| slot is Some implies {
                    let after = Store { slots: #[trigger] self.data@.update(data_idx as int, slot), ..store };
                    &&& after.consistent()
                    &&& after.model() == store.model().update(index, slot.unwrap())
                } by {
                    store.lemma_put(index, slot);
                }
            }
            self.data[data_idx].as_mut()
        }
    }

    /// Stores `value` under the key that has been free for longest and returns that key.
    /// A full slot map returns `None` and stays as it is.
    pub fn insert(&mut self, value: T) -> (key: Option<SlotMapKey>)
        requires
            old(self).wf(),
        ensures
            final(self).wf(),
            final(self).spec_capacity() == old(self).spec_capacity(),
            final(self)@ == old(self)@.insert(value),
            match key {
                Some(k) => {
                    &&& old(self)@.next_key() == Some(k@)
                    &&& k@ < old(self).spec_capacity()
                    &&& !old(self)@.contains(k@)
                    &&& final(self)@.entries == old(self)@.entries.insert(k@, value)
                    &&& final(self)@.free_keys == old(self)@.free_keys.drop_first()
                },
                None => {
                    &&& old(self)@.next_key() is None
                    &&& old(self)@.is_full()
                },
            },
    {
        proof {
            self.lemma_view_wf();
            self@.lemma_insert_wf(value);
        }
        if self.idx_to_data_next_free_index.len() == 0 {
            return None;
        }
        let key = SlotMapKey::new(self.idx_to_data_next_free_index[0]);
        proof {
            self@.lemma_insert_then_get(value);
        }
        self.insert_at(key, value);
        Some(key)
    }

    /// Stores `value` under `key` and returns `true`. A key that is not below the capacity
    /// is refused: the call returns `false` and changes nothing. A value that is already
    /// stored under `key` is replaced. A free key leaves the queue of free keys.
    pub fn insert_at(&mut self, key: SlotMapKey, value: T) -> (inserted: bool)
        requires
            old(self).wf(),
        ensures
            final(self).wf(),
            final(self).spec_capacity() == old(self).spec_capacity(),
            final(self)@ == old(self)@.insert_at(key@, value),
            inserted == old(self)@.in_range(key@),
    {
        let index: usize = key.value();
        if index >= self.capacity {
            return false;
        }
        let data_idx: usize = self.idx_to_data[index];
        if data_idx != INVALID_KEY {
            proof {
                self.store().lemma_put(index, Some(value));
            }
            self.data[data_idx] = Some(value);
            assert(self.store() == old(self).store().put(data_idx as int, Some(value)));
        } else {
            let position: usize = self.position_of_free_key(index);
            proof {
                self.store().lemma_bind(position as int, value);
            }
            self.idx_to_data_next_free_index.remove(position);
            match self.data_next_free_index.pop_front() {
                Some(slot) => {
                    self.idx_to_data[index] = slot;
                    self.data[slot] = Some(value);
                },
                None => {},
            }
            assert(self.store() == old(self).store().bind(position as int, value));
        }
        true
    }

    /// Returns the position of the free key `index` in the queue of free keys.
    fn position_of_free_key(&self, index: usize) -> (position: usize)
        requires
            self.wf(),
            index < self.spec_capacity(),
            !self@.contains(index),
        ensures
            position < self.store().free_keys.len(),
            self.store().free_keys[position as int] == index,
    {
        broadcast use lemma_seq_contains;

        proof {
            assert(self.store().keys[index as int] == INVALID_KEY);
            assert(self.store().free_keys.contains(index));
        }
        let mut position: usize = 0;
        while position < self.idx_to_data_next_free_index.len()
            && self.idx_to_data_next_free_index[position] != index
            invariant
                position <= self.idx_to_data_next_free_index@.len(),
                forall|i: int| 0 <= i < position ==> self.idx_to_data_next_free_index@[i] != index,
            decreases self.idx_to_data_next_free_index@.len() - position,
        {
            position += 1;
        }
        position
    }

    /// Removes the value stored under `key` and returns `true`; the key becomes the last of
    /// the free keys. Where no value is stored under `key`, returns `false` and changes
    /// nothing.
    pub fn remove(&mut self, key: SlotMapKey) -> (removed: bool)
        requires
            old(self).wf(),
        ensures
            final(self).wf(),
            final(self).spec_capacity() == old(self).spec_capacity(),
            final(self)@ == old(self)@.remove(key@),
            removed == old(self)@.contains(key@),
    {
        let index: usize = key.value();
        if index >= self.capacity {
            return false;
        }
        let data_idx: usize = self.idx_to_data[index];
        if data_idx != INVALID_KEY {
            proof {
                self.store().lemma_release(index);
            }
            self.data[data_idx] = None;
            self.data_next_free_index.push_back(data_idx);
            self.idx_to_data_next_free_index.push_back(index);
            self.idx_to_data[index] = INVALID_KEY;
            assert(self.store() == old(self).store().release(index));
            true
        } else {
            false
        }
    }

    /// Returns the number of stored values.
    pub fn len(&self) -> (len: usize)
        requires
            self.wf(),
        ensures
            len == self@.len(),
            len == self@.entries.dom().len(),
    {
        proof {
            self.lemma_view_wf();
            self@.lemma_len_counts_entries();
        }
        self.capacity - self.idx_to_data_next_free_index.len()
    }

    /// Returns the capacity.
    pub fn capacity(&self) -> (capacity: usize)
        ensures
            capacity == self.spec_capacity(),
    {
        self.capacity
    }

    /// Returns true if the container is empty, otherwise false.
    pub fn is_empty(&self) -> (empty: bool)
        requires
            self.wf(),
        ensures
            empty == self@.is_empty(),
    {
        self.len() == 0
    }

    /// Returns true if the container is full, otherwise false.
    pub fn is_full(&self) -> (full: bool)
        requires
            self.wf(),
        ensures
            full == self@.is_full(),
    {
        self.len() == self.capacity
    }
}

impl<T> MetaSlotMap<T, OwningPointer> {
    /// Creates an empty slot map of the given capacity on the heap.
    pub fn new(capacity: usize) -> (slotmap: Self)
        ensures
            slotmap.wf(),
            slotmap@ == SlotMapModel::<T>::new(capacity),
            slotmap.spec_capacity() == capacity,
    {
        let mut new_self = Self {
            capacity,
            idx_to_data: Vec::new(),
            idx_to_data_next_free_index: VecDeque::new(),
            data: Vec::new(),
            data_next_free_index: VecDeque::new(),
            idx_to_data_ptr: OwningPointer::new(),
            idx_to_data_next_free_index_ptr: OwningPointer::new(),
            data_ptr: OwningPointer::new(),
            data_next_free_index_ptr: OwningPointer::new(),
        };
        new_self.initialize_data_structures();
        new_self
    }
}

impl<T> MetaSlotMap<T, RelocatablePointer> {
    /// Whether the slot map is as `new_uninit` returns it: nothing is placed, nothing filled.
    pub closed spec fn is_uninit(&self) -> bool {
        &&& self.idx_to_data_ptr.place() is None
        &&& self.idx_to_data_next_free_index_ptr.place() is None
        &&& self.data_ptr.place() is None
        &&& self.data_next_free_index_ptr.place() is None
        &&& self.store().blank()
    }

    /// Where the four backing structures were placed, once the slot map is initialized.
    pub closed spec fn spec_placement(&self) -> Option<Placement> {
        if self.is_bound() {
            Some(
                Placement {
                    idx_to_data: self.idx_to_data_ptr.place().unwrap(),
                    idx_to_data_next_free_index: self.idx_to_data_next_free_index_ptr.place().unwrap(),
                    data: self.data_ptr.place().unwrap(),
                    data_next_free_index: self.data_next_free_index_ptr.place().unwrap(),
                },
            )
        } else {
            None
        }
    }

    /// A slot map that is not initialized is not well-formed, and one that is knows its
    /// places.
    pub proof fn lemma_uninit_or_wf(&self)
        ensures
            self.is_uninit() ==> !self.wf() && self.spec_placement() is None,
            self.wf() ==> !self.is_uninit() && self.spec_placement() is Some,
    {
    }

    /// Creates a slot map of the given capacity without backing structures. It has to be
    /// initialized with [`init`](Self::init) before anything else is done with it.
    pub fn new_uninit(capacity: usize) -> (slotmap: Self)
        ensures
            slotmap.is_uninit(),
            slotmap.spec_capacity() == capacity,
    {
        Self {
            capacity,
            idx_to_data: Vec::new(),
            idx_to_data_next_free_index: VecDeque::new(),
            data: Vec::new(),
            data_next_free_index: VecDeque::new(),
            idx_to_data_ptr: RelocatablePointer::new_uninit(),
            idx_to_data_next_free_index_ptr: RelocatablePointer::new_uninit(),
            data_ptr: RelocatablePointer::new_uninit(),
            data_next_free_index_ptr: RelocatablePointer::new_uninit(),
        }
    }

    /// Returns `true` once [`init`](Self::init) has succeeded.
    pub fn is_initialized(&self) -> (initialized: bool)
        requires
            self.is_uninit() || self.wf(),
        ensures
            initialized == self.wf(),
            initialized == !self.is_uninit(),
    {
        self.data_next_free_index_ptr.get().is_some()
    }

    /// Returns where the four backing structures were placed, or `None` before the slot
    /// map is initialized.
    pub fn placement(&self) -> (placement: Option<Placement>)
        requires
            self.is_uninit() || self.wf(),
        ensures
            placement == self.spec_placement(),
    {
        match (
            self.idx_to_data_ptr.get(),
            self.idx_to_data_next_free_index_ptr.get(),
            self.data_ptr.get(),
            self.data_next_free_index_ptr.get(),
        ) {
            (
                Some(idx_to_data),
                Some(idx_to_data_next_free_index),
                Some(data),
                Some(data_next_free_index),
            ) => Some(
                Placement { idx_to_data, idx_to_data_next_free_index, data, data_next_free_index },
            ),
            _ => None,
        }
    }

    /// Takes the places of the four backing structures from the allocator, in their order,
    /// and fills them: afterwards the slot map is empty and ready for use.
    ///
    /// Where the allocator cannot place one of them, the error names it, the slot map
    /// stays as it was, and the allocator keeps what it handed out before.
    pub fn init<A: ByteAllocator>(&mut self, allocator: &mut A) -> (result: Result<
        (),
        InitializationError,
    >)
        requires
            old(self).is_uninit(),
            old(allocator).inv(),
        ensures
            final(allocator).inv(),
            *final(allocator) == place_all::<T, A>(*old(allocator), old(self).spec_capacity()).1,
            final(self).spec_capacity() == old(self).spec_capacity(),
            layout_fits::<T>(),
            match result {
                Ok(()) => {
                    &&& place_all::<T, A>(*old(allocator), old(self).spec_capacity()).0
                        == Ok::<Placement, InitializationError>(final(self).spec_placement().unwrap())
                    &&& final(self).spec_placement() is Some
                    &&& final(self).wf()
                    &&& final(self)@ == SlotMapModel::<T>::new(old(self).spec_capacity())
                },
                Err(e) => {
                    &&& place_all::<T, A>(*old(allocator), old(self).spec_capacity()).0
                        == Err::<Placement, InitializationError>(e)
                    &&& *final(self) == *old(self)
                },
            },
    {
        match place_structures::<T, A>(allocator, self.capacity) {
            Err(e) => Err(e),
            Ok(placement) => {
                self.idx_to_data_ptr.init(placement.idx_to_data);
                self.idx_to_data_next_free_index_ptr.init(placement.idx_to_data_next_free_index);
                self.data_ptr.init(placement.data);
                self.data_next_free_index_ptr.init(placement.data_next_free_index);
                self.initialize_data_structures();
                Ok(())
            },
        }
    }

    /// Returns how much memory the slot map takes from the allocator in
    /// [`init`](Self::init) at most.
    pub fn const_memory_size(capacity: usize) -> (size: usize)
        requires
            spec_memory_size::<T>(capacity) <= usize::MAX,
        ensures
            size == spec_memory_size::<T>(capacity),
            layout_fits::<T>(),
    {
        match checked_memory_size::<T>(capacity) {
            Some(size) => size,
            None => unreached(),
        }
    }

    /// Returns how much memory the slot map takes from the allocator in
    /// [`init`](Self::init) at most.
    pub fn memory_size(capacity: usize) -> (size: usize)
        requires
            spec_memory_size::<T>(capacity) <= usize::MAX,
        ensures
            size == spec_memory_size::<T>(capacity),
            layout_fits::<T>(),
    {
        Self::const_memory_size(capacity)
    }
}

/// The iterator over a slot map on the heap.
pub type OwningIter<'slotmap, T> = Iter<'slotmap, T, OwningPointer>;

/// The iterator over a slot map in an arena.
pub type RelocatableIter<'slotmap, T> = Iter<'slotmap, T, RelocatablePointer>;

/// The iterator over the entries of a slot map.
pub struct Iter<'slotmap, T, P: PointerTrait> {
    slotmap: &'slotmap MetaSlotMap<T, P>,
    key: SlotMapKey,
}

impl<'slotmap, T, P: PointerTrait> Iter<'slotmap, T, P> {
    /// The slot map that the iterator walks.
    pub closed spec fn slotmap(&self) -> &'slotmap MetaSlotMap<T, P> {
        self.slotmap
    }

    /// The key from which the iterator looks for its next entry.
    pub closed spec fn position(&self) -> usize {
        self.key@
    }

    /// The slot map that the iterator walks is well-formed.
    pub open spec fn wf(&self) -> bool {
        self.slotmap().wf()
    }

    /// The keys that the iterator has yet to yield, in their order.
    pub open spec fn remaining(&self) -> Seq<usize> {
        self.slotmap()@.keys_from(self.position())
    }

    /// Returns the entry with the least key that the iterator has not passed yet, and moves
    /// behind it. Returns `None`, and stays where it is, when no entry is left.
    pub fn next(&mut self) -> (entry: Option<(SlotMapKey, &'slotmap T)>)
        requires
            old(self).wf(),
        ensures
            final(self).wf(),
            final(self).slotmap() == old(self).slotmap(),
            match entry {
                Some((key, value)) => {
                    &&& old(self).slotmap()@.is_next_occupied(old(self).position(), key@)
                    &&& old(self).slotmap()@.get(key@) == Some(*value)
                    &&& final(self).position() == key@ + 1
                    &&& old(self).remaining() == seq![key@] + final(self).remaining()
                },
                None => {
                    &&& old(self).slotmap()@.none_occupied_from(old(self).position())
                    &&& final(self).position() == old(self).position()
                    &&& old(self).remaining() == Seq::<usize>::empty()
                },
            },
    {
        proof {
            self.slotmap.lemma_view_wf();
        }
        match self.slotmap.next(self.key) {
            Some((key, value)) => {
                proof {
                    self.slotmap@.lemma_keys_from_step(self.key@, key@);
                }
                self.key = SlotMapKey::new(key.value() + 1);
                Some((key, value))
            },
            None => {
                proof {
                    self.slotmap@.lemma_keys_from_step(self.key@, 0);
                }
                None
            },
        }
    }
}

} // verus!
