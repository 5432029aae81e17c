//! A map with string keys, kept in the order of its keys.

use vstd::prelude::*;

use crate::text;
use crate::text::Comparison;

verus! {

/// A map from strings to values. Its entries stand in the order of their keys,
/// each key once.
pub struct NameMap<V> {
    entries: Vec<(String, V)>,
}

/// Whether keys stand in strictly ascending order.
pub open spec fn ascending(keys: Seq<Seq<char>>) -> bool {
    forall|i: int, j: int|
        0 <= i < j < keys.len() ==> text::precedes(#[trigger] keys[i], #[trigger] keys[j])
}

impl<V> View for NameMap<V> {
    type V = Map<Seq<char>, V>;

    closed spec fn view(&self) -> Map<Seq<char>, V> {
        Map::new(
            |k: Seq<char>| self.keys().contains(k),
            |k: Seq<char>| self.entries@[self.keys().index_of(k)].1,
        )
    }
}

impl<V> NameMap<V> {
    /// The keys, in the order of the entries.
    pub closed spec fn keys(&self) -> Seq<Seq<char>> {
        Seq::new(self.entries@.len(), |i: int| self.entries@[i].0@)
    }

    /// The keys are exactly those of the map, in strictly ascending order.
    pub open spec fn keys_in_order(&self) -> bool {
        &&& ascending(self.keys())
        &&& forall|k: Seq<char>| self@.dom().contains(k) <==> #[trigger] self.keys().contains(k)
    }

    #[verifier::type_invariant]
    spec fn well_formed(self) -> bool {
        ascending(self.keys())
    }

    proof fn key_positions(self)
        requires
            self.well_formed(),
        ensures
            self.keys_in_order(),
            forall|i: int|
                0 <= i < self.entries@.len() ==> self@.dom().contains(
                    #[trigger] self.entries@[i].0@,
                ) && self@[self.entries@[i].0@] == self.entries@[i].1,
    {
        let keys = self.keys();
        assert forall|i: int| 0 <= i < self.entries@.len() implies self@.dom().contains(
            #[trigger] self.entries@[i].0@,
        ) && self@[self.entries@[i].0@] == self.entries@[i].1 by {
            let k = self.entries@[i].0@;
            assert(keys[i] == k);
            let j = keys.index_of(k);
            assert(keys[j] == k && 0 <= j < keys.len());
            text::precedes_irreflexive(k);
            if i < j {
                assert(text::precedes(keys[i], keys[j]));
            } else if j < i {
                assert(text::precedes(keys[j], keys[i]));
            }
        }
    }

    /// The empty map.
    pub fn new() -> (m: Self)
        ensures
            m@ == Map::<Seq<char>, V>::empty(),
    {
        let m = NameMap { entries: Vec::new() };
        assert(m@ == Map::<Seq<char>, V>::empty());
        m
    }

    /// The number of entries.
    pub fn len(&self) -> (n: usize)
        ensures
            n == self.keys().len(),
            self.keys_in_order(),
    {
        proof {
            use_type_invariant(self);
            self.key_positions();
        }
        self.entries.len()
    }

    /// The entry at a position.
    pub fn entry(&self, i: usize) -> (e: (&str, &V))
        requires
            i < self.keys().len(),
        ensures
            e.0@ == self.keys()[i as int],
            self@.dom().contains(e.0@),
            *e.1 == self@[e.0@],
    {
        proof {
            use_type_invariant(self);
            self.key_positions();
        }
        let entry = &self.entries[i];
        (entry.0.as_str(), &entry.1)
    }

    /// The position of a key, or the position at which it would stand.
    fn locate(&self, key: &str) -> (r: (bool, usize))
        ensures
            r.1 <= self.entries@.len(),
            r.0 ==> r.1 < self.entries@.len() && self.entries@[r.1 as int].0@ == key@,
            !r.0 ==> forall|i: int|
                0 <= i < r.1 ==> text::precedes(#[trigger] self.entries@[i].0@, key@),
            !r.0 ==> forall|i: int|
                r.1 <= i < self.entries@.len() ==> text::precedes(
                    key@,
                    #[trigger] self.entries@[i].0@,
                ),
    {
        proof {
            use_type_invariant(self);
        }
        let mut low: usize = 0;
        let mut high: usize = self.entries.len();
        while low < high
            invariant
                low <= high <= self.entries@.len(),
                self.well_formed(),
                forall|i: int|
                    0 <= i < low ==> text::precedes(#[trigger] self.entries@[i].0@, key@),
                forall|i: int|
                    high <= i < self.entries@.len() ==> text::precedes(
                        key@,
                        #[trigger] self.entries@[i].0@,
                    ),
            decreases high - low,
        {
            let mid: usize = low + (high - low) / 2;
            let ghost m = self.entries@[mid as int].0@;
            match text::compare(self.entries[mid].0.as_str(), key) {
                Comparison::Equal => {
                    return (true, mid);
                },
                Comparison::Less => {
                    assert forall|i: int| 0 <= i < mid + 1 implies text::precedes(
                        #[trigger] self.entries@[i].0@,
                        key@,
                    ) by {
                        if i < mid {
                            assert(text::precedes(self.keys()[i], self.keys()[mid as int]));
                            text::precedes_transitive(self.entries@[i].0@, m, key@);
                        }
                    }
                    low = mid + 1;
                },
                Comparison::Greater => {
                    assert forall|i: int| mid <= i < self.entries@.len() implies text::precedes(
                        key@,
                        #[trigger] self.entries@[i].0@,
                    ) by {
                        if mid < i {
                            assert(text::precedes(self.keys()[mid as int], self.keys()[i]));
                            text::precedes_transitive(key@, m, self.entries@[i].0@);
                        }
                    }
                    high = mid;
                },
            }
        }
        (false, low)
    }

    proof fn absent(self, key: Seq<char>, at: int)
        requires
            0 <= at <= self.entries@.len(),
            forall|i: int| 0 <= i < at ==> text::precedes(#[trigger] self.entries@[i].0@, key),
            forall|i: int|
                at <= i < self.entries@.len() ==> text::precedes(
                    key,
                    #[trigger] self.entries@[i].0@,
                ),
        ensures
            !self@.dom().contains(key),
    {
        text::precedes_irreflexive(key);
        if self.keys().contains(key) {
            let i = self.keys().index_of(key);
            assert(self.keys()[i] == key);
            assert(self.entries@[i].0@ == key);
        }
    }

    /// The value at a key.
    pub fn get(&self, key: &str) -> (r: Option<&V>)
        ensures
            r is Some <==> self@.dom().contains(key@),
            r matches Some(v) ==> *v == self@[key@],
    {
        let (found, at) = self.locate(key);
        proof {
            use_type_invariant(self);
            self.key_positions();
            if !found {
                self.absent(key@, at as int);
            }
        }
        if found {
            Some(&self.entries[at].1)
        } else {
            None
        }
    }

    /// Sets the value at a key.
    pub fn insert(&mut self, key: String, value: V)
        ensures
            final(self)@ == old(self)@.insert(key@, value),
    {
        let (found, at) = self.locate(key.as_str());
        let ghost before = *self;
        let ghost name = key@;
        let ghost v = value;
        proof {
            use_type_invariant(&*self);
            before.key_positions();
        }
        let mut entries: Vec<(String, V)> = Vec::new();
        std::mem::swap(&mut entries, &mut self.entries);
        if found {
            entries[at] = (key, value);
            let ghost after = NameMap { entries };
            proof {
                assert(after.keys() == before.keys());
                after.key_positions();
                assert(after.entries@[at as int].0@ == name);
                assert(before.entries@[at as int].0@ == name);
                assert forall|k: Seq<char>| #[trigger] after@.dom().contains(k) implies after@[k]
                    == before@.insert(name, v)[k] by {
                    let i = after.keys().index_of(k);
                    assert(after.keys()[i] == k);
                    assert(after.entries@[i].0@ == k);
                    assert(before.entries@[i].0@ == k);
                }
                assert(after@ == before@.insert(name, v));
            }
        } else {
            entries.insert(at, (key, value));
            let ghost after = NameMap { entries };
            proof {
                before.absent(name, at as int);
                assert(after.keys() == before.keys().insert(at as int, name));
                assert forall|i: int, j: int| 0 <= i < j < after.keys().len() implies text::precedes(
                    #[trigger] after.keys()[i],
                    #[trigger] after.keys()[j],
                ) by {
                    let bi = if i < at { i } else { i - 1 };
                    let bj = if j < at { j } else { j - 1 };
                    if i != at {
                        assert(after.keys()[i] == before.keys()[bi]);
                        assert(before.entries@[bi].0@ == before.keys()[bi]);
                    }
                    if j != at {
                        assert(after.keys()[j] == before.keys()[bj]);
                        assert(before.entries@[bj].0@ == before.keys()[bj]);
                    }
                }
                after.key_positions();
                assert(after.entries@[at as int].0@ == name);
                assert forall|k: Seq<char>| after@.dom().contains(k) == (k == name
                    || #[trigger] before@.dom().contains(k)) by {
                    if before.keys().contains(k) {
                        let i = before.keys().index_of(k);
                        assert(after.keys()[if i < at { i } else { i + 1 }] == k);
                    }
                    assert(after.keys()[at as int] == name);
                    if after.keys().contains(k) && k != name {
                        let i = after.keys().index_of(k);
                        assert(after.keys()[i] == k);
                        assert(before.keys()[if i < at { i } else { i - 1 }] == k);
                    }
                }
                assert forall|k: Seq<char>| #[trigger] after@.dom().contains(k) implies after@[k]
                    == before@.insert(name, v)[k] by {
                    let i = after.keys().index_of(k);
                    assert(after.keys()[i] == k);
                    assert(after.entries@[i].0@ == k);
                    if k != name {
                        let bi = if i < at { i } else { i - 1 };
                        assert(before.entries@[bi].0@ == k);
                    }
                }
                assert(after@ =~= before@.insert(name, v));
            }
        }
        self.entries = entries;
    }
}

} // verus!
