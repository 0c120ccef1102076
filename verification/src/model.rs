//! The mathematical model of a slot map, and the laws that hold of it.
//!
//! A slot map of capacity `c` is a partial map from the keys `0..c` to values, together with
//! the queue of the keys that hold no value, in the order in which insertions hand them out.

use vstd::prelude::*;

verus! {

/// What a slot map holds.
pub struct SlotMapModel<T> {
    /// The number of keys. It never changes.
    pub capacity: usize,
    /// The value stored under each occupied key.
    pub entries: Map<usize, T>,
    /// The keys without a value. The first one is the key that the next insertion returns.
    pub free_keys: Seq<usize>,
}

impl<T> SlotMapModel<T> {
    /// Every key below the capacity is either occupied or queued as free, exactly once.
    pub open spec fn wf(self) -> bool {
        &&& self.free_keys.no_duplicates()
        &&& forall|key: usize| #[trigger]
            self.free_keys.contains(key) <==> key < self.capacity && !self.entries.contains_key(key)
        &&& forall|key: usize| #[trigger] self.entries.contains_key(key) ==> key < self.capacity
    }

    /// The empty slot map: no key is occupied, and the keys are handed out in ascending order.
    pub open spec fn new(capacity: usize) -> Self {
        SlotMapModel {
            capacity,
            entries: Map::empty(),
            free_keys: Seq::new(capacity as nat, |i: int| i as usize),
        }
    }

    /// The number of stored values.
    pub open spec fn len(self) -> int {
        self.capacity - self.free_keys.len()
    }

    pub open spec fn is_empty(self) -> bool {
        self.len() == 0
    }

    pub open spec fn is_full(self) -> bool {
        self.len() == self.capacity
    }

    /// Whether a value is stored under `key`.
    pub open spec fn contains(self, key: usize) -> bool {
        self.entries.contains_key(key)
    }

    /// The value stored under `key`, if there is one.
    pub open spec fn get(self, key: usize) -> Option<T> {
        if self.entries.contains_key(key) {
            Some(self.entries[key])
        } else {
            None
        }
    }

    /// The key that the next insertion returns: the one that has been free for longest.
    pub open spec fn next_key(self) -> Option<usize> {
        if self.free_keys.len() > 0 {
            Some(self.free_keys[0])
        } else {
            None
        }
    }

    /// Whether `key` names one of the slots.
    pub open spec fn in_range(self, key: usize) -> bool {
        key < self.capacity
    }

    /// The slot map after `value` was stored under `key`. A key outside the range changes
    /// nothing; an occupied key gets the new value; a free key leaves the queue of free keys.
    pub open spec fn insert_at(self, key: usize, value: T) -> Self {
        if self.in_range(key) {
            SlotMapModel {
                capacity: self.capacity,
                entries: self.entries.insert(key, value),
                free_keys: self.free_keys.remove_value(key),
            }
        } else {
            self
        }
    }

    /// The slot map after `value` was stored under the next free key. A full slot map stays
    /// as it is.
    pub open spec fn insert(self, value: T) -> Self {
        match self.next_key() {
            Some(key) => self.insert_at(key, value),
            None => self,
        }
    }

    /// The slot map after the value under `key` was removed. The key joins the end of the
    /// queue of free keys. A key without a value changes nothing.
    pub open spec fn remove(self, key: usize) -> Self {
        if self.contains(key) {
            SlotMapModel {
                capacity: self.capacity,
                entries: self.entries.remove(key),
                free_keys: self.free_keys.push(key),
            }
        } else {
            self
        }
    }

    /// The slot map in which the value under the occupied `key` is `value`.
    pub open spec fn update(self, key: usize, value: T) -> Self {
        SlotMapModel {
            capacity: self.capacity,
            entries: self.entries.insert(key, value),
            free_keys: self.free_keys,
        }
    }

    /// Whether `key` is the first occupied key that is not below `start`.
    pub open spec fn is_next_occupied(self, start: usize, key: usize) -> bool {
        &&& start <= key
        &&& self.contains(key)
        &&& forall|other: usize| start <= other < key ==> !self.contains(other)
    }

    /// Whether no key from `start` on is occupied.
    pub open spec fn none_occupied_from(self, start: usize) -> bool {
        forall|other: usize| start <= other ==> !self.contains(other)
    }

    /// The occupied keys that are not below `start`, in the order in which an iteration
    /// that stands at `start` yields them.
    pub open spec fn keys_from(self, start: usize) -> Seq<usize>
        decreases self.capacity - start,
    {
        if start >= self.capacity {
            Seq::empty()
        } else if self.contains(start) {
            seq![start] + self.keys_from((start + 1) as usize)
        } else {
            self.keys_from((start + 1) as usize)
        }
    }

    /// The occupied keys in the order in which a full iteration yields them.
    pub open spec fn keys(self) -> Seq<usize> {
        self.keys_from(0)
    }
}

} // verus!
