//! What holds of every well-formed slot map, proved over the model.

use crate::model::SlotMapModel;
use vstd::prelude::*;
use vstd::seq_lib::{lemma_seq_contains, seq_to_set_is_finite};
use vstd::set_lib::{lemma_len_subset, lemma_set_disjoint_lens};

verus! {

/// The keys below `n`.
pub open spec fn keys_below(n: usize) -> Set<usize> {
    Set::new(|key: usize| key < n)
}

/// There are `n` keys below `n`.
pub proof fn lemma_keys_below(n: usize)
    ensures
        keys_below(n).finite(),
        keys_below(n).len() == n,
    decreases n,
{
    if n == 0 {
        assert(keys_below(n) =~= Set::<usize>::empty());
    } else {
        let less = (n - 1) as usize;
        lemma_keys_below(less);
        assert(keys_below(n) =~= keys_below(less).insert(less));
    }
}

/// Taking a value out of a sequence without duplicates leaves the other values, each once.
pub proof fn lemma_remove_value(free: Seq<usize>, key: usize)
    requires
        free.no_duplicates(),
    ensures
        free.remove_value(key).no_duplicates(),
        forall|other: usize| #[trigger]
            free.remove_value(key).contains(other) <==> free.contains(other) && other != key,
        free.contains(key) ==> free.remove_value(key).len() == free.len() - 1,
        !free.contains(key) ==> free.remove_value(key) == free,
        free.len() > 0 && free[0] == key ==> free.remove_value(key) == free.drop_first(),
{
    broadcast use lemma_seq_contains;

    free.index_of_first_ensures(key);
    match free.index_of_first(key) {
        Some(at) => {
            let rest = free.remove(at);
            assert forall|other: usize| #[trigger]
                rest.contains(other) <==> free.contains(other) && other != key by {
                if rest.contains(other) {
                    let i = choose|i: int| 0 <= i < rest.len() && rest[i] == other;
                    if i < at {
                        assert(free[i] == other);
                    } else {
                        assert(free[i + 1] == other);
                    }
                }
                if free.contains(other) && other != key {
                    let i = choose|i: int| 0 <= i < free.len() && free[i] == other;
                    if i < at {
                        assert(rest[i] == other);
                    } else {
                        assert(rest[i - 1] == other);
                    }
                }
            }
            if free[0] == key {
                assert(at == 0);
                assert(rest =~= free.drop_first());
            }
        },
        None => {},
    }
}

impl<T> SlotMapModel<T> {
    /// The stored values are counted by `len`: the occupied keys and the free keys together
    /// are the keys below the capacity, so `len` and the length of the queue of free keys
    /// add up to the capacity.
    pub proof fn lemma_len_counts_entries(self)
        requires
            self.wf(),
        ensures
            self.entries.dom().finite(),
            self.entries.dom().len() == self.len(),
            self.len() + self.free_keys.len() == self.capacity,
            0 <= self.len() <= self.capacity,
    {
        broadcast use seq_to_set_is_finite;

        let occupied = self.entries.dom();
        let free = self.free_keys.to_set();
        let all = keys_below(self.capacity);
        lemma_keys_below(self.capacity);
        self.free_keys.unique_seq_to_set();
        assert(occupied.subset_of(all)) by {
            assert forall|key: usize| occupied.contains(key) implies all.contains(key) by {
                assert(self.entries.contains_key(key));
            }
        }
        lemma_len_subset(occupied, all);
        assert(occupied + free =~= all) by {
            assert forall|key: usize| all.contains(key) implies (occupied + free).contains(key) by {
                if !self.entries.contains_key(key) {
                    assert(self.free_keys.contains(key));
                }
            }
            assert forall|key: usize| (occupied + free).contains(key) implies all.contains(key) by {
                if free.contains(key) {
                    assert(self.free_keys.contains(key));
                } else {
                    assert(self.entries.contains_key(key));
                }
            }
        }
        assert(occupied.disjoint(free)) by {
            assert forall|key: usize| occupied.contains(key) implies !free.contains(key) by {
                assert(self.entries.contains_key(key));
                if free.contains(key) {
                    assert(self.free_keys.contains(key));
                }
            }
        }
        lemma_set_disjoint_lens(occupied, free);
    }

    /// The empty slot map is well-formed and holds nothing.
    pub proof fn lemma_new_wf(capacity: usize)
        ensures
            Self::new(capacity).wf(),
            Self::new(capacity).len() == 0,
            forall|key: usize| !Self::new(capacity).contains(key),
    {
        broadcast use lemma_seq_contains;

        let model = Self::new(capacity);
        assert forall|key: usize| #[trigger]
            model.free_keys.contains(key) <==> key < model.capacity && !model.entries.contains_key(
                key,
            ) by {
            if key < capacity {
                assert(model.free_keys[key as int] == key);
            }
        }
    }

    /// Storing a value under a key keeps the slot map well-formed.
    pub proof fn lemma_insert_at_wf(self, key: usize, value: T)
        requires
            self.wf(),
        ensures
            self.insert_at(key, value).wf(),
            self.insert_at(key, value).capacity == self.capacity,
    {
        lemma_remove_value(self.free_keys, key);
    }

    /// Storing a value under the next free key keeps the slot map well-formed, and takes
    /// that key from the front of the queue of free keys.
    pub proof fn lemma_insert_wf(self, value: T)
        requires
            self.wf(),
        ensures
            self.insert(value).wf(),
            self.insert(value).capacity == self.capacity,
            self.next_key() is Some ==> self.insert(value).free_keys
                == self.free_keys.drop_first(),
            self.next_key() is Some ==> self.insert(value).len() == self.len() + 1,
    {
        broadcast use lemma_seq_contains;

        match self.next_key() {
            Some(key) => {
                assert(self.free_keys.contains(key));
                self.lemma_insert_at_wf(key, value);
                lemma_remove_value(self.free_keys, key);
            },
            None => {},
        }
    }

    /// Removing a value keeps the slot map well-formed.
    pub proof fn lemma_remove_wf(self, key: usize)
        requires
            self.wf(),
        ensures
            self.remove(key).wf(),
            self.remove(key).capacity == self.capacity,
            self.contains(key) ==> self.remove(key).len() == self.len() - 1,
    {
        broadcast use lemma_seq_contains;

        if self.contains(key) {
            let after = self.remove(key);
            assert(!self.free_keys.contains(key));
            assert forall|other: usize| #[trigger]
                after.free_keys.contains(other) <==> other < after.capacity
                    && !after.entries.contains_key(other) by {
                if after.free_keys.contains(other) {
                    let i = choose|i: int| 0 <= i < after.free_keys.len() && after.free_keys[i]
                        == other;
                    if i < self.free_keys.len() {
                        assert(self.free_keys[i] == other);
                        assert(self.free_keys.contains(other));
                    }
                }
                if other < after.capacity && !after.entries.contains_key(other) {
                    if other == key {
                        assert(after.free_keys[self.free_keys.len() as int] == key);
                    } else {
                        assert(self.free_keys.contains(other));
                        let i = choose|i: int| 0 <= i < self.free_keys.len() && self.free_keys[i]
                            == other;
                        assert(after.free_keys[i] == other);
                    }
                }
            }
        }
    }

    /// Replacing the value under an occupied key keeps the slot map well-formed.
    pub proof fn lemma_update_wf(self, key: usize, value: T)
        requires
            self.wf(),
            self.contains(key),
        ensures
            self.update(key, value).wf(),
            self.update(key, value) == self.insert_at(key, value),
    {
        lemma_remove_value(self.free_keys, key);
    }

    /// A value that was inserted is found under the key that the insertion returned.
    pub proof fn lemma_insert_then_get(self, value: T)
        requires
            self.wf(),
            self.next_key() is Some,
        ensures
            self.insert(value).get(self.next_key().unwrap()) == Some(value),
            self.in_range(self.next_key().unwrap()),
            !self.contains(self.next_key().unwrap()),
    {
        broadcast use lemma_seq_contains;

        assert(self.free_keys.contains(self.free_keys[0]));
    }

    /// A value that was stored under a key in range is found under that key.
    pub proof fn lemma_insert_at_then_get(self, key: usize, value: T)
        requires
            self.wf(),
            self.in_range(key),
        ensures
            self.insert_at(key, value).get(key) == Some(value),
            self.insert_at(key, value).contains(key),
    {
    }

    /// An insertion or a removal under one key leaves the values under all other keys.
    pub proof fn lemma_other_keys_stay(self, key: usize, value: T, other: usize)
        requires
            self.wf(),
            other != key,
        ensures
            self.insert_at(key, value).get(other) == self.get(other),
            self.remove(key).get(other) == self.get(other),
    {
    }

    /// After a value was removed, its key holds nothing, and a second removal changes
    /// nothing.
    pub proof fn lemma_remove_twice(self, key: usize)
        requires
            self.wf(),
            self.contains(key),
        ensures
            !self.remove(key).contains(key),
            self.remove(key).get(key) is None,
            self.remove(key).remove(key) == self.remove(key),
    {
    }

    /// A full slot map has no free key, and an insertion leaves it as it is.
    pub proof fn lemma_insert_into_full(self, value: T)
        requires
            self.wf(),
            self.is_full(),
        ensures
            self.next_key() is None,
            self.insert(value) == self,
            self.insert(value).len() == self.len(),
    {
    }

    /// Storing a value under a key that is not below the capacity leaves the slot map as it
    /// is.
    pub proof fn lemma_insert_at_out_of_range(self, key: usize, value: T)
        requires
            self.wf(),
            key >= self.capacity,
        ensures
            !self.in_range(key),
            self.insert_at(key, value) == self,
            self.insert_at(key, value).len() == self.len(),
    {
    }

    /// The keys that an iteration yields from `start` on are strictly ascending, and they
    /// are the occupied keys that are not below `start`.
    pub proof fn lemma_keys_from(self, start: usize)
        requires
            self.wf(),
        ensures
            forall|i: int, j: int|
                0 <= i < j < self.keys_from(start).len() ==> self.keys_from(start)[i]
                    < self.keys_from(start)[j],
            forall|key: usize| #[trigger]
                self.keys_from(start).contains(key) <==> start <= key && self.contains(key),
            forall|i: int| 0 <= i < self.keys_from(start).len() ==> start <= #[trigger] self.keys_from(start)[i],
        decreases self.capacity - start,
    {
        broadcast use lemma_seq_contains;

        let keys = self.keys_from(start);
        if start >= self.capacity {
            assert forall|key: usize| #[trigger]
                keys.contains(key) <==> start <= key && self.contains(key) by {
                if self.contains(key) {
                    assert(self.entries.contains_key(key));
                }
            }
        } else {
            let next = (start + 1) as usize;
            let rest = self.keys_from(next);
            self.lemma_keys_from(next);
            if self.contains(start) {
                assert(keys == seq![start] + rest);
                assert forall|i: int, j: int| 0 <= i < j < keys.len() implies keys[i] < keys[j] by {
                    assert(keys[j] == rest[j - 1]);
                    if i > 0 {
                        assert(keys[i] == rest[i - 1]);
                    }
                }
                assert forall|key: usize| #[trigger]
                    keys.contains(key) <==> start <= key && self.contains(key) by {
                    if keys.contains(key) {
                        let i = choose|i: int| 0 <= i < keys.len() && keys[i] == key;
                        if i > 0 {
                            assert(rest[i - 1] == key);
                            assert(rest.contains(key));
                        }
                    }
                    if start <= key && self.contains(key) {
                        if key == start {
                            assert(keys[0] == key);
                        } else {
                            assert(rest.contains(key));
                            let i = choose|i: int| 0 <= i < rest.len() && rest[i] == key;
                            assert(keys[i + 1] == key);
                        }
                    }
                }
                assert forall|i: int| 0 <= i < keys.len() implies start <= #[trigger] keys[i] by {
                    if i > 0 {
                        assert(keys[i] == rest[i - 1]);
                    }
                }
            } else {
                assert(keys == rest);
                assert forall|key: usize| #[trigger]
                    keys.contains(key) <==> start <= key && self.contains(key) by {
                    if rest.contains(key) {
                    }
                }
            }
        }
    }

    /// A full iteration yields the occupied keys, each once, in strictly ascending order:
    /// exactly the keys for which `contains` holds.
    pub proof fn lemma_iteration_order(self)
        requires
            self.wf(),
        ensures
            forall|i: int, j: int|
                0 <= i < j < self.keys().len() ==> self.keys()[i] < self.keys()[j],
            forall|key: usize| #[trigger] self.keys().contains(key) <==> self.contains(key),
            self.keys().no_duplicates(),
    {
        self.lemma_keys_from(0);
        assert forall|i: int, j: int|
            0 <= i < self.keys().len() && 0 <= j < self.keys().len() && i != j implies self.keys()[i]
            != self.keys()[j] by {
            if i < j {
                assert(self.keys()[i] < self.keys()[j]);
            } else {
                assert(self.keys()[j] < self.keys()[i]);
            }
        }
    }

    /// A full iteration yields as many keys as the slot map holds values.
    pub proof fn lemma_iteration_length(self)
        requires
            self.wf(),
        ensures
            self.keys().len() == self.len(),
    {
        self.lemma_iteration_order();
        self.lemma_len_counts_entries();
        self.keys().unique_seq_to_set();
        assert(self.keys().to_set() =~= self.entries.dom()) by {
            assert forall|key: usize| self.keys().to_set().contains(key)
                == self.entries.dom().contains(key) by {
                assert(self.keys().to_set().contains(key) == self.keys().contains(key));
            }
        }
    }

    /// The iteration that stands at `start` yields next the first occupied key from `start`
    /// on, and then what the iteration yields that stands behind that key; it ends where no
    /// key from `start` on is occupied.
    pub proof fn lemma_keys_from_step(self, start: usize, key: usize)
        requires
            self.wf(),
        ensures
            self.is_next_occupied(start, key) ==> self.keys_from(start) == seq![key]
                + self.keys_from((key + 1) as usize),
            self.none_occupied_from(start) ==> self.keys_from(start) == Seq::<usize>::empty(),
        decreases self.capacity - start,
    {
        if start < self.capacity {
            if self.is_next_occupied(start, key) {
                assert(self.entries.contains_key(key));
                if !self.contains(start) {
                    self.lemma_keys_from_step((start + 1) as usize, key);
                }
            }
            if self.none_occupied_from(start) {
                self.lemma_keys_from_step((start + 1) as usize, key);
            }
        } else {
            if self.is_next_occupied(start, key) {
                assert(self.entries.contains_key(key));
            }
        }
    }
}

} // verus!
