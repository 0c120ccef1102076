//! The four backing structures of a slot map as sequences, the invariant that ties them
//! together, and the proof that each step of the engine keeps it.

use crate::laws::lemma_remove_value;
use crate::model::SlotMapModel;
use vstd::prelude::*;
use vstd::seq_lib::lemma_seq_contains;

verus! {

/// Marks a key under which no value is stored.
pub const INVALID_KEY: usize = usize::MAX;

/// What the backing structures of a slot map hold.
pub struct Store<T> {
    pub capacity: usize,
    /// For each key the slot with its value, or [`INVALID_KEY`].
    pub keys: Seq<usize>,
    /// The keys without a value, the one that has waited longest first.
    pub free_keys: Seq<usize>,
    /// The values, each in the slot that its key refers to.
    pub slots: Seq<Option<T>>,
    /// The slots without a value.
    pub free_slots: Seq<usize>,
}

impl<T> Store<T> {
    /// Whether `key` is in range and refers to a slot.
    pub open spec fn occupied(self, key: int) -> bool {
        0 <= key < self.capacity && key < self.keys.len() && self.keys[key] != INVALID_KEY
    }

    /// Whether nothing has been filled in yet.
    pub open spec fn blank(self) -> bool {
        &&& self.keys.len() == 0
        &&& self.free_keys.len() == 0
        &&& self.slots.len() == 0
        &&& self.free_slots.len() == 0
    }

    /// The keys and the slots are consistent with each other: the free keys are those that
    /// refer to no slot, the free slots are those that hold no value, there are as many of
    /// the one as of the other, and no two keys refer to the same slot.
    pub open spec fn consistent(self) -> bool {
        &&& self.keys.len() == self.capacity
        &&& self.slots.len() == self.capacity
        &&& self.free_keys.no_duplicates()
        &&& self.free_slots.no_duplicates()
        &&& self.free_keys.len() == self.free_slots.len()
        &&& forall|i: int|
            0 <= i < self.free_keys.len() ==> (#[trigger] self.free_keys[i]) < self.capacity
                && self.keys[self.free_keys[i] as int] == INVALID_KEY
        &&& forall|key: int|
            0 <= key < self.capacity && #[trigger] self.keys[key] == INVALID_KEY
                ==> self.free_keys.contains(key as usize)
        &&& forall|i: int|
            0 <= i < self.free_slots.len() ==> (#[trigger] self.free_slots[i]) < self.capacity
                && self.slots[self.free_slots[i] as int] is None
        &&& forall|slot: int|
            0 <= slot < self.capacity && (#[trigger] self.slots[slot]) is None
                ==> self.free_slots.contains(slot as usize)
        &&& forall|key: int|
            0 <= key < self.capacity && #[trigger] self.keys[key] != INVALID_KEY ==> self.keys[key]
                < self.capacity && self.slots[self.keys[key] as int] is Some
        &&& forall|key: int, other: int|
            0 <= key < self.capacity && 0 <= other < self.capacity && key != other
                && #[trigger] self.keys[key] != INVALID_KEY && #[trigger] self.keys[other]
                != INVALID_KEY ==> self.keys[key] != self.keys[other]
    }

    /// The slot map that the structures stand for.
    pub open spec fn model(self) -> SlotMapModel<T> {
        SlotMapModel {
            capacity: self.capacity,
            entries: Map::new(
                |key: usize| self.occupied(key as int),
                |key: usize| self.slots[self.keys[key as int] as int].unwrap(),
            ),
            free_keys: self.free_keys,
        }
    }

    /// The structures right after they were filled: every key free, every slot empty.
    pub open spec fn filled(capacity: usize) -> Self {
        Store {
            capacity,
            keys: Seq::new(capacity as nat, |i: int| INVALID_KEY),
            free_keys: Seq::new(capacity as nat, |i: int| i as usize),
            slots: Seq::new(capacity as nat, |i: int| None),
            free_slots: Seq::new(capacity as nat, |i: int| i as usize),
        }
    }

    /// The structures after `slot` was written into the slot at `at`.
    pub open spec fn put(self, at: int, slot: Option<T>) -> Self {
        Store { slots: self.slots.update(at, slot), ..self }
    }

    /// The structures after the free key at `position` of its queue was bound to the first
    /// free slot, and `value` written there.
    pub open spec fn bind(self, position: int, value: T) -> Self {
        let key = self.free_keys[position];
        let slot = self.free_slots[0];
        Store {
            capacity: self.capacity,
            keys: self.keys.update(key as int, slot),
            free_keys: self.free_keys.remove(position),
            slots: self.slots.update(slot as int, Some(value)),
            free_slots: self.free_slots.subrange(1, self.free_slots.len() as int),
        }
    }

    /// The structures after the occupied `key` gave up its slot.
    pub open spec fn release(self, key: usize) -> Self {
        let slot = self.keys[key as int];
        Store {
            capacity: self.capacity,
            keys: self.keys.update(key as int, INVALID_KEY),
            free_keys: self.free_keys.push(key),
            slots: self.slots.update(slot as int, None),
            free_slots: self.free_slots.push(slot),
        }
    }

    /// Consistent structures stand for a well-formed slot map.
    pub proof fn lemma_model_wf(self)
        requires
            self.consistent(),
        ensures
            self.model().wf(),
    {
        broadcast use lemma_seq_contains;

        let model = self.model();
        assert forall|key: usize| #[trigger]
            model.free_keys.contains(key) <==> key < model.capacity && !model.entries.contains_key(
                key,
            ) by {
            if model.free_keys.contains(key) {
                let i = choose|i: int| 0 <= i < model.free_keys.len() && model.free_keys[i] == key;
                assert(self.free_keys[i] < self.capacity);
            }
            if key < model.capacity && !model.entries.contains_key(key) {
                assert(self.keys[key as int] == INVALID_KEY);
            }
        }
    }

    /// Freshly filled structures are consistent and stand for the empty slot map.
    pub proof fn lemma_filled(capacity: usize)
        ensures
            Self::filled(capacity).consistent(),
            Self::filled(capacity).model() == SlotMapModel::<T>::new(capacity),
    {
        let store = Self::filled(capacity);
        assert forall|key: int|
            0 <= key < store.capacity && #[trigger] store.keys[key]
                == INVALID_KEY implies store.free_keys.contains(key as usize) by {
            assert(store.free_keys[key] == key as usize);
        }
        assert forall|slot: int|
            0 <= slot < store.capacity && (#[trigger] store.slots[slot])
                is None implies store.free_slots.contains(slot as usize) by {
            assert(store.free_slots[slot] == slot as usize);
        }
        assert(store.model().entries =~= Map::<usize, T>::empty());
    }

    /// Writing a value into the slot of an occupied key replaces the value under that key
    /// and nothing else.
    pub proof fn lemma_put(self, key: usize, slot: Option<T>)
        requires
            self.consistent(),
            self.occupied(key as int),
            slot is Some,
        ensures
            self.put(self.keys[key as int] as int, slot).consistent(),
            self.put(self.keys[key as int] as int, slot).model() == self.model().update(
                key,
                slot.unwrap(),
            ),
            self.model().update(key, slot.unwrap()) == self.model().insert_at(key, slot.unwrap()),
    {
        broadcast use lemma_seq_contains;

        let at = self.keys[key as int] as int;
        let after = self.put(at, slot);
        assert(self.slots[at] is Some);
        assert forall|i: int| 0 <= i < after.free_slots.len() implies (#[trigger] after.free_slots[i])
            < after.capacity && after.slots[after.free_slots[i] as int] is None by {
            assert(self.slots[self.free_slots[i] as int] is None);
        }
        assert forall|other: int|
            0 <= other < after.capacity && (#[trigger] after.slots[other])
                is None implies after.free_slots.contains(other as usize) by {
            assert(self.slots[other] is None);
        }
        assert forall|other: int|
            0 <= other < after.capacity && #[trigger] after.keys[other]
                != INVALID_KEY implies after.keys[other] < after.capacity
            && after.slots[after.keys[other] as int] is Some by {
            assert(self.slots[self.keys[other] as int] is Some);
        }
        assert(after.model().entries =~= self.model().entries.insert(key, slot.unwrap())) by {
            assert forall|other: usize| after.model().entries.contains_key(other) implies #[trigger]
                after.model().entries[other] == self.model().entries.insert(
                    key,
                    slot.unwrap(),
                )[other] by {
                if other != key {
                    assert(self.keys[other as int] != self.keys[key as int]);
                }
            }
        }
        self.lemma_model_wf();
        assert(!self.free_keys.contains(key));
        lemma_remove_value(self.free_keys, key);
    }

    /// Binding the free key at `position` of its queue stores the value under that key:
    /// the key leaves the queue, the first free slot takes the value.
    pub proof fn lemma_bind(self, position: int, value: T)
        requires
            self.consistent(),
            0 <= position < self.free_keys.len(),
        ensures
            self.bind(position, value).consistent(),
            self.bind(position, value).model() == self.model().insert_at(
                self.free_keys[position],
                value,
            ),
    {
        broadcast use lemma_seq_contains;

        let key = self.free_keys[position];
        let slot = self.free_slots[0];
        let after = self.bind(position, value);
        assert(key < self.capacity && self.keys[key as int] == INVALID_KEY);
        assert(slot < self.capacity && self.slots[slot as int] is None);
        // The queue of free keys without the key.
        lemma_remove_value(self.free_keys, key);
        self.free_keys.index_of_first_ensures(key);
        assert(self.free_keys.remove_value(key) == self.free_keys.remove(position));
        assert forall|i: int| 0 <= i < after.free_keys.len() implies (#[trigger] after.free_keys[i])
            < after.capacity && after.keys[after.free_keys[i] as int] == INVALID_KEY by {
            let j = if i < position {
                i
            } else {
                i + 1
            };
            assert(after.free_keys[i] == self.free_keys[j]);
            assert(self.free_keys[j] < self.capacity);
        }
        assert forall|other: int|
            0 <= other < after.capacity && #[trigger] after.keys[other]
                == INVALID_KEY implies after.free_keys.contains(other as usize) by {
            assert(other != key);
            assert(self.keys[other] == INVALID_KEY);
            assert(self.free_keys.contains(other as usize));
        }
        // The queue of free slots without its first.
        assert forall|i: int, j: int|
            0 <= i < after.free_slots.len() && 0 <= j < after.free_slots.len() && i
                != j implies after.free_slots[i] != after.free_slots[j] by {
            assert(after.free_slots[i] == self.free_slots[i + 1]);
            assert(after.free_slots[j] == self.free_slots[j + 1]);
        }
        assert forall|i: int| 0 <= i < after.free_slots.len() implies (#[trigger] after.free_slots[i])
            < after.capacity && after.slots[after.free_slots[i] as int] is None by {
            assert(after.free_slots[i] == self.free_slots[i + 1]);
            assert(self.free_slots[i + 1] < self.capacity);
            assert(self.free_slots[i + 1] != self.free_slots[0]);
        }
        assert forall|other: int|
            0 <= other < after.capacity && (#[trigger] after.slots[other])
                is None implies after.free_slots.contains(other as usize) by {
            assert(other != slot);
            assert(self.slots[other] is None);
            assert(self.free_slots.contains(other as usize));
            let i = choose|i: int| 0 <= i < self.free_slots.len() && self.free_slots[i] == other;
            assert(i != 0);
            assert(after.free_slots[i - 1] == other);
        }
        assert forall|other: int|
            0 <= other < after.capacity && #[trigger] after.keys[other]
                != INVALID_KEY implies after.keys[other] < after.capacity
            && after.slots[after.keys[other] as int] is Some by {
            if other != key {
                assert(self.keys[other] != INVALID_KEY);
                assert(self.slots[self.keys[other] as int] is Some);
            }
        }
        assert forall|one: int, other: int|
            0 <= one < after.capacity && 0 <= other < after.capacity && one != other
                && #[trigger] after.keys[one] != INVALID_KEY && #[trigger] after.keys[other]
                != INVALID_KEY implies after.keys[one] != after.keys[other] by {
            if one != key {
                assert(self.keys[one] != INVALID_KEY);
                assert(self.slots[self.keys[one] as int] is Some);
            }
            if other != key {
                assert(self.keys[other] != INVALID_KEY);
                assert(self.slots[self.keys[other] as int] is Some);
            }
        }
        assert(after.model().entries =~= self.model().entries.insert(key, value)) by {
            assert forall|other: usize| after.model().entries.contains_key(other) implies #[trigger]
                after.model().entries[other] == self.model().entries.insert(key, value)[other] by {
                if other != key {
                    assert(self.keys[other as int] != INVALID_KEY);
                    assert(self.slots[self.keys[other as int] as int] is Some);
                }
            }
            assert forall|other: usize|
                after.model().entries.contains_key(other) <==> self.model().entries.insert(
                    key,
                    value,
                ).contains_key(other) by {
                if other != key && other < self.capacity {
                    assert(after.keys[other as int] == self.keys[other as int]);
                }
            }
        }
    }

    /// Releasing the slot of an occupied key removes the value under that key: the key and
    /// the slot join the ends of their queues.
    pub proof fn lemma_release(self, key: usize)
        requires
            self.consistent(),
            self.occupied(key as int),
        ensures
            self.release(key).consistent(),
            self.release(key).model() == self.model().remove(key),
    {
        broadcast use lemma_seq_contains;

        let slot = self.keys[key as int];
        let after = self.release(key);
        assert(slot < self.capacity && self.slots[slot as int] is Some);
        assert(!self.free_keys.contains(key)) by {
            if self.free_keys.contains(key) {
                let i = choose|i: int| 0 <= i < self.free_keys.len() && self.free_keys[i] == key;
                assert(self.keys[self.free_keys[i] as int] == INVALID_KEY);
            }
        }
        assert(!self.free_slots.contains(slot)) by {
            if self.free_slots.contains(slot) {
                let i = choose|i: int| 0 <= i < self.free_slots.len() && self.free_slots[i] == slot;
                assert(self.slots[self.free_slots[i] as int] is None);
            }
        }
        assert forall|i: int| 0 <= i < after.free_keys.len() implies (#[trigger] after.free_keys[i])
            < after.capacity && after.keys[after.free_keys[i] as int] == INVALID_KEY by {
            if i < self.free_keys.len() {
                assert(after.free_keys[i] == self.free_keys[i]);
                assert(self.free_keys[i] < self.capacity);
            }
        }
        assert forall|other: int|
            0 <= other < after.capacity && #[trigger] after.keys[other]
                == INVALID_KEY implies after.free_keys.contains(other as usize) by {
            if other == key {
                assert(after.free_keys[self.free_keys.len() as int] == key);
            } else {
                assert(self.keys[other] == INVALID_KEY);
                assert(self.free_keys.contains(other as usize));
                let i = choose|i: int| 0 <= i < self.free_keys.len() && self.free_keys[i] == other;
                assert(after.free_keys[i] == other);
            }
        }
        assert forall|i: int| 0 <= i < after.free_slots.len() implies (#[trigger] after.free_slots[i])
            < after.capacity && after.slots[after.free_slots[i] as int] is None by {
            if i < self.free_slots.len() {
                assert(after.free_slots[i] == self.free_slots[i]);
                assert(self.free_slots[i] < self.capacity);
                assert(self.slots[self.free_slots[i] as int] is None);
            }
        }
        assert forall|other: int|
            0 <= other < after.capacity && (#[trigger] after.slots[other])
                is None implies after.free_slots.contains(other as usize) by {
            if other == slot {
                assert(after.free_slots[self.free_slots.len() as int] == slot);
            } else {
                assert(self.slots[other] is None);
                assert(self.free_slots.contains(other as usize));
                let i = choose|i: int|
                    0 <= i < self.free_slots.len() && self.free_slots[i] == other;
                assert(after.free_slots[i] == other);
            }
        }
        assert forall|other: int|
            0 <= other < after.capacity && #[trigger] after.keys[other]
                != INVALID_KEY implies after.keys[other] < after.capacity
            && after.slots[after.keys[other] as int] is Some by {
            assert(other != key);
            assert(self.keys[other] != INVALID_KEY);
            assert(self.keys[other] != self.keys[key as int]);
            assert(self.slots[self.keys[other] as int] is Some);
        }
        assert forall|one: int, other: int|
            0 <= one < after.capacity && 0 <= other < after.capacity && one != other
                && #[trigger] after.keys[one] != INVALID_KEY && #[trigger] after.keys[other]
                != INVALID_KEY implies after.keys[one] != after.keys[other] by {
            assert(self.keys[one] != INVALID_KEY);
            assert(self.keys[other] != INVALID_KEY);
        }
        assert(after.model().entries =~= self.model().entries.remove(key)) by {
            assert forall|other: usize| after.model().entries.contains_key(other) implies #[trigger]
                after.model().entries[other] == self.model().entries.remove(key)[other] by {
                assert(other != key);
                assert(self.keys[other as int] != INVALID_KEY);
                assert(self.keys[other as int] != self.keys[key as int]);
            }
            assert forall|other: usize|
                after.model().entries.contains_key(other) <==> self.model().entries.remove(
                    key,
                ).contains_key(other) by {
                if other != key && other < self.capacity {
                    assert(after.keys[other as int] == self.keys[other as int]);
                }
            }
        }
    }
}

} // verus!
