//! An insertion-ordered table keyed by strings.
//!
//! Iteration over a hash map follows no order that a caller could rely on,
//! and the order in which displays are commanded must be the same from one
//! call to the next. `Table` keeps its keys in the order of their first
//! insertion and finds them by comparing.

use crate::text::texts;
use vstd::prelude::*;

verus! {

/// A table from strings to values of `V`.
pub struct Table<V> {
    keys: Vec<String>,
    values: Vec<V>,
}

impl<V> View for Table<V> {
    type V = Map<Seq<char>, V>;

    /// The table as a map from key to value.
    closed spec fn view(&self) -> Map<Seq<char>, V> {
        Map::new(
            |key: Seq<char>| self.names().contains(key),
            |key: Seq<char>| self.values[self.slot(key)],
        )
    }
}

impl<V> Table<V> {
    /// Keys and values pair up, and no key occurs twice.
    pub closed spec fn wf(&self) -> bool {
        &&& self.keys.len() == self.values.len()
        &&& forall|i: int, j: int|
            0 <= i < j < self.keys.len() ==> self.keys[i]@ != self.keys[j]@
    }

    /// The keys, in the order of their first insertion.
    pub closed spec fn names(&self) -> Seq<Seq<char>> {
        Seq::new(self.keys.len() as nat, |i: int| self.keys[i]@)
    }

    spec fn slot(&self, key: Seq<char>) -> int {
        choose|i: int| 0 <= i < self.keys.len() && self.keys[i]@ == key
    }

    /// How the map and the key order hang together: the keys of the map are
    /// the names, and no name occurs twice.
    pub proof fn lemma_shape(&self)
        requires
            self.wf(),
        ensures
            self.names().no_duplicates(),
            self@.dom().finite(),
            forall|key: Seq<char>| self@.contains_key(key) <==> self.names().contains(key),
    {
        let names = self.names();
        assert(self@.dom() =~= names.to_set());
        vstd::seq_lib::seq_to_set_is_finite(names);
    }

    proof fn lemma_slot(&self, i: int)
        requires
            self.wf(),
            0 <= i < self.keys.len(),
        ensures
            self.names().contains(self.keys[i]@),
            self.slot(self.keys[i]@) == i,
    {
        assert(self.names()[i] == self.keys[i]@);
        let found = self.slot(self.keys[i]@);
        assert(0 <= found < self.keys.len() && self.keys[found]@ == self.keys[i]@);
    }

    /// An empty table.
    pub fn new() -> (table: Self)
        ensures
            table.wf(),
            table@ == Map::<Seq<char>, V>::empty(),
            table.names() == Seq::<Seq<char>>::empty(),
    {
        let table = Table { keys: Vec::new(), values: Vec::new() };
        assert(table.names() =~= Seq::<Seq<char>>::empty());
        assert(table@ =~= Map::<Seq<char>, V>::empty());
        table
    }

    /// The number of keys.
    pub fn len(&self) -> (n: usize)
        requires
            self.wf(),
        ensures
            n == self.names().len(),
    {
        self.keys.len()
    }

    /// The key at position `i` of the insertion order.
    pub fn key(&self, i: usize) -> (key: &String)
        requires
            self.wf(),
            i < self.names().len(),
        ensures
            key@ == self.names()[i as int],
    {
        &self.keys[i]
    }

    /// A copy of the keys, in the order of their first insertion.
    pub fn keys(&self) -> (keys: Vec<String>)
        requires
            self.wf(),
        ensures
            texts(keys@) == self.names(),
    {
        let mut keys: Vec<String> = Vec::new();
        let mut i: usize = 0;
        while i < self.keys.len()
            invariant
                i <= self.keys.len(),
                texts(keys@) == self.names().take(i as int),
            decreases self.keys.len() - i,
        {
            let ghost so_far = texts(keys@);
            keys.push(self.keys[i].clone());
            assert(texts(keys@) =~= so_far.push(self.keys[i as int]@));
            assert(self.names().take(i + 1) =~= so_far.push(self.keys[i as int]@));
            i += 1;
        }
        assert(self.names().take(self.keys.len() as int) =~= self.names());
        keys
    }

    /// Where `key` stands in the insertion order, if it is in the table.
    pub fn position(&self, key: &String) -> (found: Option<usize>)
        requires
            self.wf(),
        ensures
            match found {
                Some(i) => i < self.names().len() && self.names()[i as int] == key@,
                None => !self.names().contains(key@),
            },
    {
        let mut i: usize = 0;
        while i < self.keys.len()
            invariant
                i <= self.keys.len(),
                forall|j: int| 0 <= j < i ==> self.keys[j]@ != key@,
            decreases self.keys.len() - i,
        {
            if self.keys[i] == *key {
                return Some(i);
            }
            i += 1;
        }
        None
    }

    /// Whether `key` is in the table.
    pub fn contains_key(&self, key: &String) -> (present: bool)
        requires
            self.wf(),
        ensures
            present == self@.contains_key(key@),
    {
        self.position(key).is_some()
    }

    /// The value that `key` is bound to, if it is in the table.
    pub fn get(&self, key: &String) -> (found: Option<&V>)
        requires
            self.wf(),
        ensures
            match found {
                Some(value) => self@.contains_key(key@) && *value == self@[key@],
                None => !self@.contains_key(key@),
            },
    {
        match self.position(key) {
            Some(i) => {
                proof {
                    self.lemma_slot(i as int);
                }
                Some(&self.values[i])
            },
            None => None,
        }
    }

    /// Binds `key` to `value`. A key that is already in the table keeps its
    /// place in the order and takes the new value.
    pub fn insert(&mut self, key: String, value: V)
        requires
            old(self).wf(),
        ensures
            final(self).wf(),
            final(self)@ == old(self)@.insert(key@, value),
            final(self).names() == if old(self)@.contains_key(key@) {
                old(self).names()
            } else {
                old(self).names().push(key@)
            },
    {
        let ghost before = *self;
        match self.position(&key) {
            Some(i) => {
                self.values[i] = value;
                proof {
                    assert(self.names() =~= before.names());
                    assert forall|k: Seq<char>| #[trigger] self@.contains_key(k) implies self@[k]
                        == before@.insert(key@, value)[k] by {
                        let at = self.slot(k);
                        before.lemma_slot(at);
                        before.lemma_slot(i as int);
                    }
                    assert(self@ =~= before@.insert(key@, value));
                }
            },
            None => {
                self.keys.push(key);
                self.values.push(value);
                proof {
                    let last = before.keys.len() as int;
                    assert(self.names() =~= before.names().push(key@));
                    assert forall|j: int| 0 <= j < last implies before.keys[j]@ != key@ by {
                        assert(before.names()[j] == before.keys[j]@);
                    }
                    assert(self.wf());
                    self.lemma_slot(last);
                    assert forall|k: Seq<char>| #[trigger] self@.contains_key(k) implies self@[k]
                        == before@.insert(key@, value)[k] by {
                        let at = self.slot(k);
                        self.lemma_slot(at);
                        if at < last {
                            before.lemma_slot(at);
                        }
                    }
                    assert forall|k: Seq<char>| before@.insert(key@, value).contains_key(k)
                        implies #[trigger] self@.contains_key(k) by {
                        if k != key@ {
                            let at = before.slot(k);
                            assert(self.names()[at] == k);
                        }
                    }
                    assert(self@ =~= before@.insert(key@, value));
                }
            },
        }
    }
}

} // verus!
