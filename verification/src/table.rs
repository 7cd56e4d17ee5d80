//! A small keyed table: at most one item per integer key, kept in insertion
//! order. The store and the directory are built on it.

use vstd::prelude::*;

verus! {

/// One entry of a table.
pub struct Slot<T> {
    pub key: i32,
    pub item: T,
}

/// A table from integer keys to items.
pub struct Table<T> {
    slots: Vec<Slot<T>>,
}

/// Whether no key occurs twice in `slots`.
pub open spec fn distinct_keys<T>(slots: Seq<Slot<T>>) -> bool {
    forall|i: int, j: int|
        0 <= i < j < slots.len() ==> (#[trigger] slots[i]).key != (#[trigger] slots[j]).key
}

/// The keys of `keys` other than `key`, in their order.
pub open spec fn without(keys: Seq<i32>, key: i32) -> Seq<i32> {
    keys.filter(|k: i32| k != key)
}

/// The map from keys to items that `slots` stands for.
pub open spec fn slots_to_map<T>(slots: Seq<Slot<T>>) -> Map<i32, T> {
    Map::new(
        |k: i32| exists|i: int| 0 <= i < slots.len() && (#[trigger] slots[i]).key == k,
        |k: i32|
            {
                let i = choose|i: int| 0 <= i < slots.len() && (#[trigger] slots[i]).key == k;
                slots[i].item
            },
    )
}

impl<T> View for Table<T> {
    type V = Map<i32, T>;

    closed spec fn view(&self) -> Map<i32, T> {
        slots_to_map(self.slots@)
    }
}

impl<T> Table<T> {
    /// Well-formedness: no key has two entries.
    pub closed spec fn wf(&self) -> bool {
        distinct_keys(self.slots@)
    }

    /// The keys in the order in which the table walks them.
    pub closed spec fn keys(&self) -> Seq<i32> {
        self.slots@.map(|i: int, s: Slot<T>| s.key)
    }

    /// The walk order lists every key of the table once, and nothing else.
    pub proof fn lemma_keys(&self)
        requires
            self.wf(),
        ensures
            self.keys().no_duplicates(),
            self.keys().to_set() == self@.dom(),
            self@.dom().finite(),
            self@.dom().len() == self.keys().len(),
    {
        let keys = self.keys();
        assert(keys.no_duplicates()) by {
            assert forall|i: int, j: int| 0 <= i < keys.len() && 0 <= j < keys.len() && i
                != j implies keys[i] != keys[j] by {
                if i < j {
                    assert(self.slots@[i].key != self.slots@[j].key);
                } else {
                    assert(self.slots@[j].key != self.slots@[i].key);
                }
            }
        }
        assert forall|k: i32| keys.to_set().contains(k) == self@.dom().contains(k) by {
            if keys.to_set().contains(k) {
                let i = choose|i: int| 0 <= i < keys.len() && keys[i] == k;
                assert(self.slots@[i].key == k);
            }
            if self@.dom().contains(k) {
                let i = choose|i: int| 0 <= i < self.slots@.len() && (#[trigger] self.slots@[i]).key == k;
                assert(keys[i] == k);
            }
        }
        assert(keys.to_set() =~= self@.dom());
        keys.unique_seq_to_set();
    }

    /// An empty table.
    pub fn new() -> (table: Table<T>)
        ensures
            table.wf(),
            table@ == Map::<i32, T>::empty(),
            table.keys().len() == 0,
    {
        let table = Table { slots: Vec::new() };
        assert(table@ =~= Map::<i32, T>::empty());
        table
    }

    /// Number of entries.
    pub fn len(&self) -> (n: usize)
        ensures
            n == self.keys().len(),
    {
        self.slots.len()
    }

    /// The key of the `i`-th entry in walk order.
    pub fn key_at(&self, i: usize) -> (key: i32)
        requires
            self.wf(),
            i < self.keys().len(),
        ensures
            key == self.keys()[i as int],
            self@.contains_key(key),
    {
        proof {
            lemma_map_at(self.slots@, i as int);
        }
        self.slots[i].key
    }

    /// The item of the `i`-th entry in walk order.
    pub fn item_at(&self, i: usize) -> (item: &T)
        requires
            self.wf(),
            i < self.keys().len(),
        ensures
            self@.contains_key(self.keys()[i as int]),
            *item == self@[self.keys()[i as int]],
    {
        proof {
            lemma_map_at(self.slots@, i as int);
        }
        &self.slots[i].item
    }

    /// Position of the entry for `key` in walk order, if there is one.
    pub fn position(&self, key: i32) -> (found: Option<usize>)
        requires
            self.wf(),
        ensures
            match found {
                Some(i) => i < self.keys().len() && self.keys()[i as int] == key
                    && self@.contains_key(key),
                None => !self@.contains_key(key),
            },
    {
        let mut i: usize = 0;
        while i < self.slots.len()
            invariant
                self.wf(),
                i <= self.slots@.len(),
                forall|j: int| 0 <= j < i ==> self.slots@[j].key != key,
            decreases self.slots@.len() - i,
        {
            if self.slots[i].key == key {
                proof {
                    lemma_map_at(self.slots@, i as int);
                }
                return Some(i);
            }
            i = i + 1;
        }
        None
    }

    /// The item for `key`, if there is one.
    pub fn get(&self, key: i32) -> (item: Option<&T>)
        requires
            self.wf(),
        ensures
            match item {
                Some(t) => self@.contains_key(key) && *t == self@[key],
                None => !self@.contains_key(key),
            },
    {
        match self.position(key) {
            Some(i) => Some(self.item_at(i)),
            None => None,
        }
    }

    /// Sets the item for `key`, replacing the one it had. A new key goes to
    /// the end of the walk order; a known key keeps its place.
    pub fn put(&mut self, key: i32, item: T)
        requires
            old(self).wf(),
        ensures
            final(self).wf(),
            final(self)@ == old(self)@.insert(key, item),
            old(self)@.contains_key(key) ==> final(self).keys() == old(self).keys(),
            !old(self)@.contains_key(key) ==> final(self).keys() == old(self).keys().push(key),
    {
        let ghost before = self.slots@;
        let found = self.position(key);
        let slot = Slot { key, item };
        match found {
            Some(i) => {
                self.slots.set(i, slot);
                proof {
                    lemma_map_update(before, i as int, slot);
                    assert(self.keys() =~= old(self).keys());
                }
            },
            None => {
                self.slots.push(slot);
                proof {
                    assert forall|i: int| 0 <= i < before.len() implies before[i].key != key by {
                        lemma_map_at(before, i);
                    }
                    lemma_map_push(before, slot);
                    assert(self.keys() =~= old(self).keys().push(key));
                }
            },
        }
    }

    /// Removes the entry for `key`, if there is one. The other entries keep
    /// their order.
    pub fn remove(&mut self, key: i32)
        requires
            old(self).wf(),
        ensures
            final(self).wf(),
            final(self)@ == old(self)@.remove(key),
            final(self).keys() == without(old(self).keys(), key),
    {
        let ghost before = self.slots@;
        proof {
            self.lemma_keys();
        }
        match self.position(key) {
            Some(i) => {
                self.slots.remove(i);
                proof {
                    lemma_map_remove(before, i as int);
                    assert(self.keys() =~= old(self).keys().remove(i as int));
                    lemma_without_at(old(self).keys(), i as int);
                }
            },
            None => {
                assert(self@ =~= old(self)@.remove(key));
                proof {
                    assert(!old(self).keys().to_set().contains(key));
                    lemma_without_absent(old(self).keys(), key);
                }
            },
        }
    }
}

/// Leaving out a key that does not occur changes nothing.
pub proof fn lemma_without_absent(keys: Seq<i32>, key: i32)
    requires
        !keys.contains(key),
    ensures
        without(keys, key) == keys,
    decreases keys.len(),
{
    reveal(Seq::filter);
    if keys.len() > 0 {
        let head = keys.drop_last();
        assert forall|k: i32| head.contains(k) implies keys.contains(k) by {
            let j = choose|j: int| 0 <= j < head.len() && head[j] == k;
            assert(keys[j] == k);
        }
        assert(keys[keys.len() - 1] == keys.last());
        lemma_without_absent(head, key);
        assert(head.push(keys.last()) =~= keys);
    }
}

/// Leaving out the key at index `i` of a sequence without repetitions takes
/// out that one place.
pub proof fn lemma_without_at(keys: Seq<i32>, i: int)
    requires
        keys.no_duplicates(),
        0 <= i < keys.len(),
    ensures
        without(keys, keys[i]) == keys.remove(i),
    decreases keys.len(),
{
    reveal(Seq::filter);
    let key = keys[i];
    let head = keys.drop_last();
    let last = keys.len() - 1;
    if i == last {
        assert(!head.contains(key)) by {
            if head.contains(key) {
                let j = choose|j: int| 0 <= j < head.len() && head[j] == key;
                assert(keys[j] == keys[i]);
            }
        }
        lemma_without_absent(head, key);
        assert(keys.remove(i) =~= head);
    } else {
        assert(head.no_duplicates());
        assert(head[i] == key);
        lemma_without_at(head, i);
        assert(keys.last() != key);
        assert(head.remove(i).push(keys.last()) =~= keys.remove(i));
    }
}

/// With distinct keys, the map holds for the key of entry `i` the item of
/// that entry.
proof fn lemma_map_at<T>(slots: Seq<Slot<T>>, i: int)
    requires
        distinct_keys(slots),
        0 <= i < slots.len(),
    ensures
        slots_to_map(slots).contains_key(slots[i].key),
        slots_to_map(slots)[slots[i].key] == slots[i].item,
{
    let k = slots[i].key;
    let j = choose|j: int| 0 <= j < slots.len() && (#[trigger] slots[j]).key == k;
    assert(j == i);
}

/// Replacing the entry of a key is an insert on the map.
proof fn lemma_map_update<T>(slots: Seq<Slot<T>>, i: int, slot: Slot<T>)
    requires
        distinct_keys(slots),
        0 <= i < slots.len(),
        slots[i].key == slot.key,
    ensures
        distinct_keys(slots.update(i, slot)),
        slots_to_map(slots.update(i, slot)) == slots_to_map(slots).insert(slot.key, slot.item),
{
    let after = slots.update(i, slot);
    assert(distinct_keys(after)) by {
        assert forall|a: int, b: int| 0 <= a < b < after.len() implies (#[trigger] after[a]).key != (
        #[trigger] after[b]).key by {
            assert(after[a].key == slots[a].key);
            assert(after[b].key == slots[b].key);
        }
    }
    let m0 = slots_to_map(slots);
    let m1 = slots_to_map(after);
    let target = m0.insert(slot.key, slot.item);
    assert forall|k: i32| m1.contains_key(k) == target.contains_key(k) by {
        if m1.contains_key(k) {
            let j = choose|j: int| 0 <= j < after.len() && (#[trigger] after[j]).key == k;
            assert(slots[j].key == k);
        }
        if target.contains_key(k) && k != slot.key {
            let j = choose|j: int| 0 <= j < slots.len() && (#[trigger] slots[j]).key == k;
            assert(after[j].key == k);
        }
        if k == slot.key {
            assert(after[i].key == k);
        }
    }
    assert forall|k: i32| m1.contains_key(k) implies m1[k] == target[k] by {
        let j = choose|j: int| 0 <= j < after.len() && (#[trigger] after[j]).key == k;
        lemma_map_at(after, j);
        if k != slot.key {
            assert(j != i);
            assert(slots[j] == after[j]);
            lemma_map_at(slots, j);
        } else {
            assert(j == i);
        }
    }
    assert(m1 =~= target);
}

/// Appending an entry with a new key is an insert on the map.
proof fn lemma_map_push<T>(slots: Seq<Slot<T>>, slot: Slot<T>)
    requires
        distinct_keys(slots),
        forall|i: int| 0 <= i < slots.len() ==> slots[i].key != slot.key,
    ensures
        distinct_keys(slots.push(slot)),
        slots_to_map(slots.push(slot)) == slots_to_map(slots).insert(slot.key, slot.item),
{
    let after = slots.push(slot);
    let n = slots.len() as int;
    assert(distinct_keys(after)) by {
        assert forall|a: int, b: int| 0 <= a < b < after.len() implies (#[trigger] after[a]).key != (
        #[trigger] after[b]).key by {
            assert(after[a] == slots[a]);
            if b < n {
                assert(after[b] == slots[b]);
            }
        }
    }
    let m0 = slots_to_map(slots);
    let m1 = slots_to_map(after);
    let target = m0.insert(slot.key, slot.item);
    assert forall|k: i32| m1.contains_key(k) == target.contains_key(k) by {
        if m1.contains_key(k) {
            let j = choose|j: int| 0 <= j < after.len() && (#[trigger] after[j]).key == k;
            if j < n {
                assert(slots[j].key == k);
            }
        }
        if target.contains_key(k) && k != slot.key {
            let j = choose|j: int| 0 <= j < slots.len() && (#[trigger] slots[j]).key == k;
            assert(after[j].key == k);
        }
        if k == slot.key {
            assert(after[n].key == k);
        }
    }
    assert forall|k: i32| m1.contains_key(k) implies m1[k] == target[k] by {
        let j = choose|j: int| 0 <= j < after.len() && (#[trigger] after[j]).key == k;
        lemma_map_at(after, j);
        if k != slot.key {
            assert(j < n);
            assert(slots[j] == after[j]);
            lemma_map_at(slots, j);
        } else {
            assert(j == n);
        }
    }
    assert(m1 =~= target);
}

/// Taking an entry out removes its key from the map.
proof fn lemma_map_remove<T>(slots: Seq<Slot<T>>, i: int)
    requires
        distinct_keys(slots),
        0 <= i < slots.len(),
    ensures
        distinct_keys(slots.remove(i)),
        slots_to_map(slots.remove(i)) == slots_to_map(slots).remove(slots[i].key),
{
    let after = slots.remove(i);
    let gone = slots[i].key;
    assert(distinct_keys(after)) by {
        assert forall|a: int, b: int| 0 <= a < b < after.len() implies (#[trigger] after[a]).key != (
        #[trigger] after[b]).key by {
            let a0 = if a < i { a } else { a + 1 };
            let b0 = if b < i { b } else { b + 1 };
            assert(after[a] == slots[a0]);
            assert(after[b] == slots[b0]);
        }
    }
    let m0 = slots_to_map(slots);
    let m1 = slots_to_map(after);
    let target = m0.remove(gone);
    assert forall|k: i32| m1.contains_key(k) == target.contains_key(k) by {
        if m1.contains_key(k) {
            let j = choose|j: int| 0 <= j < after.len() && (#[trigger] after[j]).key == k;
            let j0 = if j < i { j } else { j + 1 };
            assert(after[j] == slots[j0]);
            assert(slots[j0].key == k);
        }
        if target.contains_key(k) {
            let j = choose|j: int| 0 <= j < slots.len() && (#[trigger] slots[j]).key == k;
            assert(j != i);
            let j1 = if j < i { j } else { j - 1 };
            assert(after[j1] == slots[j]);
            assert(after[j1].key == k);
        }
    }
    assert forall|k: i32| m1.contains_key(k) implies m1[k] == target[k] by {
        let j = choose|j: int| 0 <= j < after.len() && (#[trigger] after[j]).key == k;
        let j0 = if j < i { j } else { j + 1 };
        assert(after[j] == slots[j0]);
        lemma_map_at(after, j);
        lemma_map_at(slots, j0);
    }
    assert(m1 =~= target);
}

} // verus!
