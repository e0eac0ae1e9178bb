//! A map from identifiers, and a set of them, both kept in order.

use vstd::prelude::*;

use crate::text::{place, Place};

verus! {

/// A map whose keys are texts, walked in their order.
pub struct IdTable<V> {
    entries: Vec<(String, V)>,
}

/// The keys of a list of entries.
spec fn keys_of<V>(entries: Seq<(String, V)>) -> Seq<Seq<char>> {
    entries.map_values(|e: (String, V)| e.0@)
}

impl<V: View> View for IdTable<V> {
    type V = Map<Seq<char>, V::V>;

    closed spec fn view(&self) -> Map<Seq<char>, V::V> {
        Map::new(
            |k: Seq<char>| self.keys().contains(k),
            |k: Seq<char>| self.entries@[self.keys().index_of(k)].1@,
        )
    }
}

impl<V> IdTable<V> {
    /// The keys in order.
    pub closed spec fn keys(&self) -> Seq<Seq<char>> {
        keys_of(self.entries@)
    }

    /// The keys ascend, so each occurs once.
    #[verifier::type_invariant]
    spec fn wf(&self) -> bool {
        crate::text::ascending(self.keys())
    }

    /// The key at a place of the order.
    pub fn key_at(&self, at: usize) -> (key: &str)
        requires
            at < self.keys().len(),
        ensures
            key@ == self.keys()[at as int],
    {
        self.entries[at].0.as_str()
    }

    /// The place of `key`, or the place where it belongs.
    fn find(&self, key: &str) -> (found: (bool, usize))
        requires
            self.wf(),
        ensures
            found.1 <= self.keys().len(),
            found.0 ==> found.1 < self.keys().len() && self.keys()[found.1 as int] == key@,
            !found.0 ==> !self.keys().contains(key@),
            !found.0 ==> forall|i: int|
                0 <= i < found.1 ==> crate::text::precedes(#[trigger] self.keys()[i], key@),
            !found.0 ==> forall|i: int|
                found.1 <= i < self.keys().len() ==> crate::text::precedes(key@, #[trigger] self.keys()[i]),
    {
        let mut low: usize = 0;
        let mut high: usize = self.entries.len();
        while low < high
            invariant
                self.wf(),
                low <= high <= self.keys().len(),
                self.keys().len() == self.entries@.len(),
                forall|i: int| 0 <= i < low ==> crate::text::precedes(#[trigger] self.keys()[i], key@),
                forall|i: int|
                    high <= i < self.keys().len() ==> crate::text::precedes(key@, #[trigger] self.keys()[i]),
            decreases high - low,
        {
            let middle: usize = low + (high - low) / 2;
            let ghost keys = self.keys();
            match place(self.entries[middle].0.as_str(), key) {
                Place::Same => {
                    return (true, middle);
                },
                Place::Before => {
                    assert forall|i: int| 0 <= i <= middle implies crate::text::precedes(
                        #[trigger] keys[i],
                        key@,
                    ) by {
                        if i < middle {
                            crate::text::lemma_transitive(keys[i], keys[middle as int], key@);
                        }
                    }
                    low = middle + 1;
                },
                Place::After => {
                    assert forall|i: int| middle <= i < keys.len() implies crate::text::precedes(
                        key@,
                        #[trigger] keys[i],
                    ) by {
                        if i > middle {
                            crate::text::lemma_transitive(key@, keys[middle as int], keys[i]);
                        }
                    }
                    high = middle;
                },
            }
        }
        proof {
            crate::text::lemma_irreflexive(key@);
        }
        (false, low)
    }
}

impl<V: View> IdTable<V> {
    pub fn new() -> (table: Self)
        ensures
            table@ == Map::<Seq<char>, V::V>::empty(),
    {
        let table = IdTable { entries: Vec::new() };
        assert(table.keys() =~= Seq::<Seq<char>>::empty());
        assert(table@ =~= Map::<Seq<char>, V::V>::empty());
        table
    }

    /// What the map holds at the keys of the list.
    proof fn lemma_entries(&self)
        requires
            self.wf(),
        ensures
            crate::text::lists(self.keys(), self@.dom()),
            crate::text::listing(self@.dom()) == self.keys(),
            self@.dom().finite(),
    {
        assert(crate::text::lists(self.keys(), self@.dom()));
        crate::text::lemma_listing(self.keys(), self@.dom());
        assert(self@.dom() =~= self.keys().to_set());
        vstd::seq_lib::seq_to_set_is_finite(self.keys());
    }

    proof fn lemma_value(&self, at: int)
        requires
            self.wf(),
            0 <= at < self.keys().len(),
        ensures
            self@.contains_key(self.keys()[at]),
            self@[self.keys()[at]] == self.entries@[at].1@,
    {
        let key = self.keys()[at];
        assert(self.keys().contains(key));
        let other = self.keys().index_of(key);
        crate::text::lemma_irreflexive(key);
        if other < at {
            assert(crate::text::precedes(self.keys()[other], self.keys()[at]));
        } else if other > at {
            assert(crate::text::precedes(self.keys()[at], self.keys()[other]));
        }
    }

    /// How many keys there are.
    pub fn len(&self) -> (len: usize)
        ensures
            len == self.keys().len(),
            crate::text::lists(self.keys(), self@.dom()),
            crate::text::listing(self@.dom()) == self.keys(),
            self@.dom().finite(),
    {
        proof {
            use_type_invariant(self);
            self.lemma_entries();
        }
        self.entries.len()
    }

    /// The value at a place of the order.
    pub fn value_at(&self, at: usize) -> (value: &V)
        requires
            at < self.keys().len(),
        ensures
            self@.contains_key(self.keys()[at as int]),
            value@ == self@[self.keys()[at as int]],
    {
        proof {
            use_type_invariant(self);
            self.lemma_value(at as int);
        }
        &self.entries[at].1
    }

    pub fn get(&self, key: &str) -> (value: Option<&V>)
        ensures
            match value {
                Some(value) => self@.contains_key(key@) && value@ == self@[key@],
                None => !self@.contains_key(key@),
            },
    {
        proof {
            use_type_invariant(&*self);
        }
        let (found, at) = self.find(key);
        if found {
            Some(self.value_at(at))
        } else {
            None
        }
    }

    pub fn contains_key(&self, key: &str) -> (found: bool)
        ensures
            found == self@.contains_key(key@),
    {
        proof {
            use_type_invariant(&*self);
        }
        let (found, at) = self.find(key);
        proof {
            if found {
                self.lemma_value(at as int);
            }
        }
        found
    }

    /// Sets the value of a key.
    pub fn insert(&mut self, key: String, value: V)
        ensures
            final(self)@ == old(self)@.insert(key@, value@),
    {
        proof {
            use_type_invariant(&*self);
        }
        let (found, at) = self.find(key.as_str());
        let ghost before = *self;
        let ghost k = key@;
        let ghost v = value@;
        let mut entries: Vec<(String, V)> = Vec::new();
        std::mem::swap(&mut entries, &mut self.entries);
        if found {
            entries.set(at, (key, value));
            assert(keys_of(entries@) =~= before.keys());
        } else {
            entries.insert(at, (key, value));
            assert(keys_of(entries@) =~= before.keys().insert(at as int, k));
            proof {
                crate::text::lemma_insert_ascending(before.keys(), at as int, k);
            }
        }
        self.entries = entries;
        proof {
            before.lemma_entries();
            self.lemma_entries();
            assert forall|x: Seq<char>| self@.contains_key(x) <==> before@.insert(k, v).contains_key(x) by {
                if self@.contains_key(x) && x != k {
                    let i = choose|i: int| 0 <= i < self.keys().len() && self.keys()[i] == x;
                    if found || i < at {
                        assert(before.keys()[i] == x);
                    } else {
                        assert(before.keys()[i - 1] == x);
                    }
                }
                if before@.contains_key(x) {
                    let i = choose|i: int| 0 <= i < before.keys().len() && before.keys()[i] == x;
                    if found || i < at {
                        assert(self.keys()[i] == x);
                    } else {
                        assert(self.keys()[i + 1] == x);
                    }
                }
                if x == k {
                    assert(self.keys()[at as int] == k);
                }
            }
            assert forall|x: Seq<char>| self@.contains_key(x) implies self@[x] == before@.insert(k, v)[x] by {
                let i = choose|i: int| 0 <= i < self.keys().len() && self.keys()[i] == x;
                self.lemma_value(i);
                if x == k {
                    assert(self.keys()[at as int] == k);
                    self.lemma_value(at as int);
                } else if found || i < at {
                    before.lemma_value(i);
                } else {
                    before.lemma_value(i - 1);
                }
            }
            assert(self@ =~= before@.insert(k, v));
        }
    }

    /// Takes a key out of the map.
    pub fn remove(&mut self, key: &str) -> (removed: Option<V>)
        ensures
            final(self)@ == old(self)@.remove(key@),
            match removed {
                Some(value) => old(self)@.contains_key(key@) && value@ == old(self)@[key@],
                None => !old(self)@.contains_key(key@) && final(self)@ == old(self)@,
            },
    {
        proof {
            use_type_invariant(&*self);
        }
        let (found, at) = self.find(key);
        if !found {
            assert(self@.remove(key@) =~= self@);
            return None;
        }
        let ghost before = *self;
        proof {
            before.lemma_value(at as int);
        }
        let mut entries: Vec<(String, V)> = Vec::new();
        std::mem::swap(&mut entries, &mut self.entries);
        let (_, value) = entries.remove(at);
        proof {
            let keys = keys_of(entries@);
            assert(keys =~= before.keys().remove(at as int));
            assert forall|i: int, j: int| 0 <= i < j < keys.len() implies crate::text::precedes(
                #[trigger] keys[i],
                #[trigger] keys[j],
            ) by {
                let a = if i < at { i } else { i + 1 };
                let b = if j < at { j } else { j + 1 };
                assert(keys[i] == before.keys()[a]);
                assert(keys[j] == before.keys()[b]);
            }
        }
        self.entries = entries;
        proof {
            before.lemma_entries();
            self.lemma_entries();
            assert forall|x: Seq<char>| self@.contains_key(x) <==> before@.remove(key@).contains_key(x) by {
                if self@.contains_key(x) {
                    let i = choose|i: int| 0 <= i < self.keys().len() && self.keys()[i] == x;
                    let a = if i < at { i } else { i + 1 };
                    assert(before.keys()[a] == x);
                    crate::text::lemma_irreflexive(x);
                    if x == key@ {
                        assert(before.keys()[at as int] == x);
                    }
                }
                if before@.contains_key(x) && x != key@ {
                    let i = choose|i: int| 0 <= i < before.keys().len() && before.keys()[i] == x;
                    let a = if i < at { i } else { i - 1 };
                    assert(self.keys()[a] == x);
                }
            }
            assert forall|x: Seq<char>| self@.contains_key(x) implies self@[x] == before@.remove(key@)[x] by {
                let i = choose|i: int| 0 <= i < self.keys().len() && self.keys()[i] == x;
                self.lemma_value(i);
                let a = if i < at { i } else { i + 1 };
                before.lemma_value(a);
            }
            assert(self@ =~= before@.remove(key@));
        }
        Some(value)
    }
}

/// A set of texts, walked in their order.
pub struct IdSet {
    table: IdTable<()>,
}

impl View for IdSet {
    type V = Set<Seq<char>>;

    closed spec fn view(&self) -> Set<Seq<char>> {
        self.table@.dom()
    }
}

impl IdSet {
    /// The texts in order.
    pub closed spec fn ids(&self) -> Seq<Seq<char>> {
        self.table.keys()
    }

    pub fn new() -> (set: Self)
        ensures
            set@ == Set::<Seq<char>>::empty(),
    {
        let set = IdSet { table: IdTable::new() };
        assert(set@ =~= Set::<Seq<char>>::empty());
        set
    }

    /// How many texts there are.
    pub fn len(&self) -> (len: usize)
        ensures
            len == self.ids().len(),
            crate::text::lists(self.ids(), self@),
            crate::text::listing(self@) == self.ids(),
            self@.finite(),
    {
        self.table.len()
    }

    pub fn is_empty(&self) -> (empty: bool)
        ensures
            empty == (self@ == Set::<Seq<char>>::empty()),
    {
        let empty = self.table.len() == 0;
        proof {
            if empty {
                assert(self@ =~= Set::<Seq<char>>::empty());
            } else {
                assert(self.ids().contains(self.ids()[0]));
                assert(self@.contains(self.ids()[0]));
            }
        }
        empty
    }

    /// The text at a place of the order.
    pub fn id_at(&self, at: usize) -> (id: &str)
        requires
            at < self.ids().len(),
        ensures
            id@ == self.ids()[at as int],
    {
        self.table.key_at(at)
    }

    pub fn contains(&self, id: &str) -> (found: bool)
        ensures
            found == self@.contains(id@),
    {
        self.table.contains_key(id)
    }

    pub fn insert(&mut self, id: String)
        ensures
            final(self)@ == old(self)@.insert(id@),
    {
        let ghost before = self@;
        let ghost added = id@;
        self.table.insert(id, ());
        assert(self@ =~= before.insert(added));
    }

    pub fn remove(&mut self, id: &str)
        ensures
            final(self)@ == old(self)@.remove(id@),
    {
        let ghost before = self@;
        self.table.remove(id);
        assert(self@ =~= before.remove(id@));
    }
}

} // verus!
