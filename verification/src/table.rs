//! A table from texts to values that can also be searched by value.

use vstd::prelude::*;
use crate::text::same_text;

verus! {

/// A finite map from texts to values. Every key occurs once.
pub struct TextTable<V> {
    entries: Vec<(String, V)>,
}

impl<V> TextTable<V> {
    /// Every key occurs once.
    pub closed spec fn wf(&self) -> bool {
        forall|i: int, j: int|
            0 <= i < j < self.entries@.len() ==> #[trigger] self.entries@[i].0@
                != #[trigger] self.entries@[j].0@
    }

    /// `key` is the key at `i`.
    closed spec fn key_at(&self, i: int, key: Seq<char>) -> bool {
        0 <= i < self.entries@.len() && self.entries@[i].0@ == key
    }

    proof fn lemma_entry(&self, i: int)
        requires
            self.wf(),
            0 <= i < self.entries@.len(),
        ensures
            self@.contains_key(self.entries@[i].0@),
            self@[self.entries@[i].0@] == self.entries@[i].1,
    {
        assert(self.key_at(i, self.entries@[i].0@));
    }

    proof fn lemma_key(&self, key: Seq<char>) -> (i: int)
        requires
            self.wf(),
            self@.contains_key(key),
        ensures
            self.key_at(i, key),
            self@[key] == self.entries@[i].1,
    {
        choose|i: int| self.key_at(i, key)
    }

    /// A table without entries.
    pub fn new() -> (table: Self)
        ensures
            table.wf(),
            table@ == Map::<Seq<char>, V>::empty(),
    {
        let table = TextTable { entries: Vec::new() };
        assert(table@ =~= Map::<Seq<char>, V>::empty());
        table
    }

    /// The number of entries.
    pub fn len(&self) -> (n: usize)
        ensures
            n == self.keys().len(),
    {
        self.entries.len()
    }

    /// The keys, in an order that means nothing. A new value for a key leaves it in its place.
    pub closed spec fn keys(&self) -> Seq<Seq<char>> {
        self.entries@.map_values(|e: (String, V)| e.0@)
    }

    /// The entry at `i`.
    pub fn entry(&self, i: usize) -> (entry: (&str, &V))
        requires
            self.wf(),
            i < self.keys().len(),
        ensures
            entry.0@ == self.keys()[i as int],
            self@.contains_key(entry.0@),
            *entry.1 == self@[entry.0@],
    {
        proof {
            self.lemma_entry(i as int);
        }
        (self.entries[i].0.as_str(), &self.entries[i].1)
    }

    /// The keys are those that have a value.
    pub proof fn lemma_keys(&self, key: Seq<char>)
        requires
            self.wf(),
        ensures
            self.keys().contains(key) <==> self@.contains_key(key),
    {
        if self@.contains_key(key) {
            let i = self.lemma_key(key);
            assert(self.keys()[i] == key);
        }
        if self.keys().contains(key) {
            let i = choose|i: int| 0 <= i < self.keys().len() && self.keys()[i] == key;
            self.lemma_entry(i);
        }
    }

    fn find(&self, key: &str) -> (place: Option<usize>)
        requires
            self.wf(),
        ensures
            match place {
                Some(i) => self.key_at(i as int, key@) && self@.contains_key(key@) && self@[key@]
                    == self.entries@[i as int].1,
                None => !self@.contains_key(key@),
            },
    {
        for i in 0..self.entries.len()
            invariant
                self.wf(),
                forall|j: int| 0 <= j < i ==> !self.key_at(j, key@),
        {
            if same_text(self.entries[i].0.as_str(), key) {
                proof {
                    self.lemma_entry(i as int);
                }
                return Some(i);
            }
        }
        proof {
            if self@.contains_key(key@) {
                let i = self.lemma_key(key@);
            }
        }
        None
    }

    /// The value at `key`.
    pub fn get(&self, key: &str) -> (value: Option<&V>)
        requires
            self.wf(),
        ensures
            match value {
                Some(v) => self@.contains_key(key@) && *v == self@[key@],
                None => !self@.contains_key(key@),
            },
    {
        match self.find(key) {
            Some(i) => Some(&self.entries[i].1),
            None => None,
        }
    }

    /// Takes the entry at `key` out.
    pub fn remove(&mut self, key: &str) -> (value: Option<V>)
        requires
            old(self).wf(),
        ensures
            final(self).wf(),
            final(self)@ == old(self)@.remove(key@),
            match value {
                Some(v) => old(self)@.contains_key(key@) && v == old(self)@[key@],
                None => !old(self)@.contains_key(key@),
            },
    {
        let ghost before = *self;
        match self.find(key) {
            Some(i) => {
                let entry = self.entries.remove(i);
                proof {
                    assert(self.wf());
                    assert forall|k: Seq<char>| #[trigger]
                        self@.contains_key(k) == before@.remove(key@).contains_key(k) by {
                        if self@.contains_key(k) {
                            let j = self.lemma_key(k);
                            let h = if j < i {
                                j
                            } else {
                                j + 1
                            };
                            assert(before.entries@[h] == self.entries@[j]);
                            before.lemma_entry(h);
                        }
                        if before@.remove(key@).contains_key(k) {
                            let h = before.lemma_key(k);
                            let j = if h < i {
                                h
                            } else {
                                h - 1
                            };
                            assert(before.entries@[h] == self.entries@[j]);
                            self.lemma_entry(j);
                        }
                    }
                    assert forall|k: Seq<char>| #[trigger] self@.contains_key(k) implies self@[k]
                        == before@.remove(key@)[k] by {
                        let j = self.lemma_key(k);
                        let h = if j < i {
                            j
                        } else {
                            j + 1
                        };
                        assert(before.entries@[h] == self.entries@[j]);
                        before.lemma_entry(h);
                    }
                    assert(self@ =~= before@.remove(key@));
                }
                Some(entry.1)
            },
            None => {
                assert(self@ =~= before@.remove(key@));
                None
            },
        }
    }

    /// Puts an entry in, in place of the one with its key.
    pub fn insert(&mut self, key: String, value: V)
        requires
            old(self).wf(),
        ensures
            final(self).wf(),
            final(self)@ == old(self)@.insert(key@, value),
            final(self).keys() == (if old(self)@.contains_key(key@) {
                old(self).keys()
            } else {
                old(self).keys().push(key@)
            }),
    {
        let ghost before = *self;
        let ghost k0 = key@;
        let ghost place: int;
        match self.find(key.as_str()) {
            Some(i) => {
                proof {
                    place = i as int;
                }
                self.entries.set(i, (key, value));
                assert(self.keys() =~= before.keys());
            },
            None => {
                proof {
                    place = before.entries@.len() as int;
                    assert forall|i: int| 0 <= i < before.entries@.len() implies #[trigger]
                        before.entries@[i].0@ != k0 by {
                        before.lemma_entry(i);
                    }
                }
                self.entries.push((key, value));
                assert(self.keys() =~= before.keys().push(k0));
            },
        }
        proof {
            assert(self.entries@[place].0@ == k0 && self.entries@[place].1 == value);
            assert(forall|i: int|
                0 <= i < self.entries@.len() && i != place ==> #[trigger] self.entries@[i]
                    == before.entries@[i]);
            assert(self.wf()) by {
                assert forall|i: int, j: int|
                    0 <= i < j < self.entries@.len() implies #[trigger] self.entries@[i].0@
                    != #[trigger] self.entries@[j].0@ by {
                    if place < before.entries@.len() {
                        assert(before.entries@[i].0@ != before.entries@[j].0@);
                    }
                }
            }
            assert forall|k: Seq<char>| #[trigger]
                self@.contains_key(k) == before@.insert(k0, value).contains_key(k) by {
                self.lemma_entry(place);
                if self@.contains_key(k) && k != k0 {
                    let j = self.lemma_key(k);
                    before.lemma_entry(j);
                }
                if before@.contains_key(k) && k != k0 {
                    let j = before.lemma_key(k);
                    assert(self.entries@[j] == before.entries@[j]);
                    self.lemma_entry(j);
                }
            }
            assert forall|k: Seq<char>| #[trigger] self@.contains_key(k) implies self@[k]
                == before@.insert(k0, value)[k] by {
                self.lemma_entry(place);
                if k != k0 {
                    let j = self.lemma_key(k);
                    before.lemma_entry(j);
                }
            }
            assert(self@ =~= before@.insert(k0, value));
        }
    }
}

impl<V> View for TextTable<V> {
    type V = Map<Seq<char>, V>;

    closed spec fn view(&self) -> Map<Seq<char>, V> {
        Map::new(
            |key: Seq<char>| exists|i: int| self.key_at(i, key),
            |key: Seq<char>| self.entries@[choose|i: int| self.key_at(i, key)].1,
        )
    }
}

} // verus!
