//! A keyed table: the storage of one kind of contract entry, keyed by a uid or
//! an address, modelled as a finite map from keys to the views of the values.

use crate::types::{same_address, same_bytes32, Address, Uid};
use vstd::prelude::*;

verus! {

/// A key of a table, compared exactly.
pub trait TableKey: Copy + Sized {
    fn same_key(&self, other: &Self) -> (r: bool)
        ensures
            r == (*self == *other),
    ;
}

/// A value of a table, which can be copied out with its view intact.
pub trait TableValue: View + Sized {
    fn duplicate(&self) -> (r: Self)
        ensures
            r@ == self@,
    ;
}

impl TableKey for Uid {
    fn same_key(&self, other: &Self) -> (r: bool) {
        same_bytes32(self, other)
    }
}

impl TableKey for Address {
    fn same_key(&self, other: &Self) -> (r: bool) {
        same_address(self, other)
    }
}

impl TableValue for u64 {
    fn duplicate(&self) -> (r: Self) {
        *self
    }
}

/// Entries in insertion order, with the map they stand for.
#[verifier::reject_recursive_types(K)]
pub struct Table<K, V: View> {
    entries: Vec<(K, V)>,
    contents: Ghost<Map<K, V::V>>,
}

impl<K: TableKey, V: TableValue> View for Table<K, V> {
    type V = Map<K, V::V>;

    closed spec fn view(&self) -> Map<K, V::V> {
        self.contents@
    }
}

impl<K: TableKey, V: TableValue> Table<K, V> {
    /// No key occurs twice, and the entries are exactly the map.
    pub closed spec fn wf(&self) -> bool {
        &&& forall|i: int, j: int|
            0 <= i < j < self.entries@.len() ==> #[trigger] self.entries@[i].0
                != #[trigger] self.entries@[j].0
        &&& forall|i: int|
            #![trigger self.entries@[i]]
            0 <= i < self.entries@.len() ==> self.contents@.contains_key(self.entries@[i].0)
                && self.contents@[self.entries@[i].0] == self.entries@[i].1@
        &&& forall|k: K|
            #[trigger] self.contents@.contains_key(k) ==> exists|i: int|
                0 <= i < self.entries@.len() && #[trigger] self.entries@[i].0 == k
    }

    /// An empty table.
    pub fn new() -> (t: Self)
        ensures
            t.wf(),
            t@ == Map::<K, V::V>::empty(),
    {
        Table { entries: Vec::new(), contents: Ghost(Map::empty()) }
    }

    /// The position of `key`, if it is present.
    fn find(&self, key: &K) -> (r: Option<usize>)
        requires
            self.wf(),
        ensures
            match r {
                Some(i) => i < self.entries@.len() && self.entries@[i as int].0 == *key,
                None => !self@.contains_key(*key),
            },
    {
        let mut i: usize = 0;
        while i < self.entries.len()
            invariant
                self.wf(),
                i <= self.entries@.len(),
                forall|j: int| 0 <= j < i ==> #[trigger] self.entries@[j].0 != *key,
            decreases self.entries@.len() - i,
        {
            if self.entries[i].0.same_key(key) {
                return Some(i);
            }
            i = i + 1;
        }
        None
    }

    /// Whether `key` is present.
    pub fn contains(&self, key: &K) -> (r: bool)
        requires
            self.wf(),
        ensures
            r == self@.contains_key(*key),
    {
        match self.find(key) {
            Some(i) => {
                assert(self.entries@[i as int].0 == *key);
                true
            },
            None => false,
        }
    }

    /// A copy of the value under `key`, if it is present.
    pub fn get(&self, key: &K) -> (r: Option<V>)
        requires
            self.wf(),
        ensures
            r is Some == self@.contains_key(*key),
            r is Some ==> r->0@ == self@[*key],
    {
        match self.find(key) {
            Some(i) => {
                assert(self.entries@[i as int].0 == *key);
                Some(self.entries[i].1.duplicate())
            },
            None => None,
        }
    }

    /// Puts `value` under `key`, replacing what was there.
    pub fn insert(&mut self, key: K, value: V)
        requires
            old(self).wf(),
        ensures
            final(self).wf(),
            final(self)@ == old(self)@.insert(key, value@),
    {
        let ghost view_of_value = value@;
        let ghost old_entries = self.entries@;
        let ghost mut pos: int = old_entries.len() as int;
        match self.find(&key) {
            Some(i) => {
                self.entries[i] = (key, value);
                proof {
                    pos = i as int;
                }
                proof {
                    assert forall|j: int| 0 <= j < old_entries.len() && j != i implies
                        #[trigger] self.entries@[j] == old_entries[j] by {}
                }
            },
            None => {
                self.entries.push((key, value));
                proof {
                    assert forall|j: int| 0 <= j < old_entries.len() implies
                        #[trigger] self.entries@[j] == old_entries[j] by {}
                }
            },
        }
        self.contents = Ghost(self.contents@.insert(key, view_of_value));
        proof {
            let n = self.entries@.len();
            assert forall|k: K| #[trigger] self.contents@.contains_key(k) implies exists|i: int|
                0 <= i < n && #[trigger] self.entries@[i].0 == k by {
                if k != key {
                    let i = choose|i: int| 0 <= i < old_entries.len() && old_entries[i].0 == k;
                    assert(self.entries@[i].0 == k);
                } else {
                    assert(self.entries@[pos].0 == k);
                }
            }
        }
    }
}

} // verus!
