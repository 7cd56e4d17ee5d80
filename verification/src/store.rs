//! A node's local key-value store: at most one record per key, each tagged
//! with the node that holds it.

use crate::table::without;
use crate::table::Table;
use vstd::prelude::*;

verus! {

/// A key with its value, as clients and transfers carry it.
#[derive(Clone, Debug, PartialEq, Eq)]
pub struct KeyValue {
    pub key: i32,
    pub value: String,
}

/// A key-value pair as contracts see it.
pub struct Pair {
    pub key: i32,
    pub value: Seq<char>,
}

impl View for KeyValue {
    type V = Pair;

    open spec fn view(&self) -> Pair {
        Pair { key: self.key, value: self.value@ }
    }
}

/// The pairs that `data` carries, in order.
pub open spec fn pairs_of(data: Seq<KeyValue>) -> Seq<Pair> {
    data.map_values(|kv: KeyValue| kv@)
}

/// What the store holds for a key.
pub struct Stored {
    pub value: Seq<char>,
    pub node_id: i32,
}

/// A value with the node it is stored under.
pub struct Holding {
    pub value: String,
    pub node_id: i32,
}

impl View for Holding {
    type V = Stored;

    open spec fn view(&self) -> Stored {
        Stored { value: self.value@, node_id: self.node_id }
    }
}

/// An in-memory key-value store.
pub struct KeyValueStore {
    table: Table<Holding>,
}

impl View for KeyValueStore {
    type V = Map<i32, Stored>;

    closed spec fn view(&self) -> Map<i32, Stored> {
        self.table@.map_values(|h: Holding| h@)
    }
}

impl KeyValueStore {
    /// Well-formedness: no key has two records.
    pub closed spec fn wf(&self) -> bool {
        self.table.wf()
    }

    /// The keys in the order in which the store lists them: the order in
    /// which they were first stored.
    pub closed spec fn keys(&self) -> Seq<i32> {
        self.table.keys()
    }

    /// The pairs of the store in listing order.
    pub open spec fn listing(&self) -> Seq<Pair> {
        self.keys().map_values(|k: i32| Pair { key: k, value: self@[k].value })
    }

    /// The listing order names every key of the store once, and nothing else.
    pub proof fn lemma_keys(&self)
        requires
            self.wf(),
        ensures
            self.keys().no_duplicates(),
            self.keys().to_set() == self@.dom(),
            self@.dom().finite(),
            self@.dom().len() == self.keys().len(),
    {
        self.table.lemma_keys();
        assert(self@.dom() =~= self.table@.dom());
    }

    /// An empty store.
    pub fn new() -> (store: KeyValueStore)
        ensures
            store.wf(),
            store@ == Map::<i32, Stored>::empty(),
            store.keys() == Seq::<i32>::empty(),
    {
        let store = KeyValueStore { table: Table::new() };
        assert(store@ =~= Map::<i32, Stored>::empty());
        store
    }

    /// The value stored for `key`, if any.
    pub fn get(&self, key: i32) -> (value: Option<String>)
        requires
            self.wf(),
        ensures
            match value {
                Some(v) => self@.contains_key(key) && v@ == self@[key].value,
                None => !self@.contains_key(key),
            },
    {
        match self.table.get(key) {
            Some(h) => Some(h.value.clone()),
            None => None,
        }
    }

    /// The node under which `key` is stored, if it is stored.
    pub fn holder(&self, key: i32) -> (node_id: Option<i32>)
        requires
            self.wf(),
        ensures
            match node_id {
                Some(n) => self@.contains_key(key) && n == self@[key].node_id,
                None => !self@.contains_key(key),
            },
    {
        match self.table.get(key) {
            Some(h) => Some(h.node_id),
            None => None,
        }
    }

    /// Number of records.
    pub fn len(&self) -> (n: usize)
        requires
            self.wf(),
        ensures
            n == self@.dom().len(),
            self@.dom().finite(),
    {
        proof {
            self.table.lemma_keys();
            assert(self@.dom() =~= self.table@.dom());
        }
        self.table.len()
    }

    /// Stores `value` for `key` under `node_id`, replacing what was stored
    /// for that key.
    pub fn put(&mut self, key: i32, value: String, node_id: i32)
        requires
            old(self).wf(),
        ensures
            final(self).wf(),
            final(self)@ == old(self)@.insert(key, Stored { value: value@, node_id }),
            final(self).keys() == if old(self)@.contains_key(key) {
                old(self).keys()
            } else {
                old(self).keys().push(key)
            },
    {
        self.table.put(key, Holding { value, node_id });
        assert(self@ =~= old(self)@.insert(key, Stored { value: value@, node_id }));
    }

    /// Removes the record for `key`, if there is one.
    pub fn delete(&mut self, key: i32)
        requires
            old(self).wf(),
        ensures
            final(self).wf(),
            final(self)@ == old(self)@.remove(key),
            final(self).keys() == without(old(self).keys(), key),
    {
        self.table.remove(key);
        assert(self@ =~= old(self)@.remove(key));
    }

    /// Every record as a key-value pair, one per key, in listing order.
    pub fn entries(&self) -> (pairs: Vec<KeyValue>)
        requires
            self.wf(),
        ensures
            pairs_of(pairs@) == self.listing(),
    {
        proof {
            self.lemma_keys();
        }
        let mut pairs: Vec<KeyValue> = Vec::new();
        let mut i: usize = 0;
        while i < self.table.len()
            invariant
                self.table.wf(),
                i <= self.table.keys().len(),
                pairs@.len() == i,
                forall|j: int|
                    0 <= j < i ==> (#[trigger] pairs@[j]).key == self.table.keys()[j]
                        && self.table@.contains_key(self.table.keys()[j]) && pairs@[j].value@
                        == self.table@[self.table.keys()[j]].value@,
            decreases self.table.keys().len() - i,
        {
            let key = self.table.key_at(i);
            let value = self.table.item_at(i).value.clone();
            let ghost before = pairs@;
            pairs.push(KeyValue { key, value });
            assert forall|j: int| 0 <= j < i + 1 implies (#[trigger] pairs@[j]).key
                == self.table.keys()[j] && self.table@.contains_key(self.table.keys()[j])
                && pairs@[j].value@ == self.table@[self.table.keys()[j]].value@ by {
                if j < i {
                    assert(pairs@[j] == before[j]);
                }
            }
            i = i + 1;
        }
        assert(pairs_of(pairs@) =~= self.listing()) by {
            assert forall|j: int| 0 <= j < pairs@.len() implies pairs_of(pairs@)[j]
                == self.listing()[j] by {
                assert(pairs@[j].key == self.table.keys()[j]);
            }
        }
        pairs
    }
}

} // verus!
