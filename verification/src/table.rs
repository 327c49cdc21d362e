//! A small table from names to values, kept in the order in which the names
//! were first set.

use vstd::prelude::*;
use crate::names::{distinct, find_name, lemma_lookup, lookup, texts};

verus! {

/// The map that pairs each of the `names` with the value at its place; where a
/// name stands twice, its first place counts.
pub open spec fn paired<V>(names: Seq<Seq<char>>, values: Seq<V>) -> Map<Seq<char>, V> {
    Map::new(
        |name: Seq<char>| lookup(names, name) is Some,
        |name: Seq<char>| values[lookup(names, name)->Some_0],
    )
}

/// At most one value under each name.
pub struct NameTable<V> {
    names: Vec<String>,
    values: Vec<V>,
}

impl<V> View for NameTable<V> {
    type V = Map<Seq<char>, V>;

    closed spec fn view(&self) -> Map<Seq<char>, V> {
        paired(texts(self.names@), self.values@)
    }
}

impl<V> NameTable<V> {
    /// Every name stands once, beside its value.
    pub closed spec fn wf(&self) -> bool {
        &&& self.names.len() == self.values.len()
        &&& distinct(texts(self.names@))
    }

    /// The names in the order in which they were first set.
    pub closed spec fn names(&self) -> Seq<Seq<char>> {
        texts(self.names@)
    }

    /// The values, each at the place of its name.
    pub closed spec fn values(&self) -> Seq<V> {
        self.values@
    }

    /// The names are those that have a value, each once, and each value stands
    /// at the place of its name.
    pub proof fn lemma_names(&self)
        requires
            self.wf(),
        ensures
            distinct(self.names()),
            self.names().len() == self.values().len(),
            forall|name: Seq<char>| self@.contains_key(name) <==> self.names().contains(name),
            forall|i: int| 0 <= i < self.names().len() ==> self@[#[trigger] self.names()[i]] == self.values()[i],
    {
        assert forall|name: Seq<char>| self@.contains_key(name) <==> self.names().contains(name) by {
            lemma_lookup(self.names(), name);
            if self.names().contains(name) {
                let i = choose|i: int| 0 <= i < self.names().len() && self.names()[i] == name;
                assert(self.names()[i] == name);
            }
        }
        assert forall|i: int| 0 <= i < self.names().len() implies self@[#[trigger] self.names()[i]]
            == self.values()[i] by {
            let name = self.names()[i];
            lemma_lookup(self.names(), name);
            let k = lookup(self.names(), name)->Some_0;
            if k < i {
                assert(self.names()[k] != self.names()[i]);
            }
        }
    }

    /// A table without entries.
    pub fn new() -> (t: Self)
        ensures
            t.wf(),
            t@ == Map::<Seq<char>, V>::empty(),
            t.names().len() == 0,
    {
        let t = NameTable { names: Vec::new(), values: Vec::new() };
        proof {
            assert(t@ =~= Map::<Seq<char>, V>::empty());
        }
        t
    }

    /// Number of entries.
    pub fn len(&self) -> (n: usize)
        requires
            self.wf(),
        ensures
            n == self.names().len(),
            n == self.values().len(),
    {
        self.names.len()
    }

    /// The name at place `i`.
    pub fn name_at(&self, i: usize) -> (r: &String)
        requires
            self.wf(),
            i < self.names().len(),
        ensures
            r@ == self.names()[i as int],
    {
        &self.names[i]
    }

    /// The value at place `i`.
    pub fn value_at(&self, i: usize) -> (r: &V)
        requires
            self.wf(),
            i < self.names().len(),
        ensures
            *r == self.values()[i as int],
    {
        &self.values[i]
    }

    /// The value under `name`, if there is one.
    pub fn get(&self, name: &str) -> (r: Option<&V>)
        requires
            self.wf(),
        ensures
            r == if self@.contains_key(name@) {
                Some(&self@[name@])
            } else {
                None
            },
    {
        match find_name(&self.names, &name.to_owned()) {
            Some(i) => {
                proof {
                    lemma_lookup(texts(self.names@), name@);
                }
                Some(&self.values[i])
            },
            None => None,
        }
    }

    /// Puts `value` under `name`, in place of what stood there.
    pub fn set(&mut self, name: &str, value: V)
        requires
            old(self).wf(),
        ensures
            final(self).wf(),
            final(self)@ == old(self)@.insert(name@, value),
            final(self).names() == if old(self)@.contains_key(name@) {
                old(self).names()
            } else {
                old(self).names().push(name@)
            },
    {
        let owned = name.to_owned();
        let ghost names = texts(self.names@);
        proof {
            lemma_lookup(names, name@);
        }
        match find_name(&self.names, &owned) {
            Some(i) => {
                self.values.set(i, value);
                proof {
                    assert forall|key: Seq<char>| #[trigger] self@.contains_key(key) implies self@[key]
                        == old(self)@.insert(name@, value)[key] by {
                        lemma_lookup(names, key);
                    }
                    assert(self@ =~= old(self)@.insert(name@, value));
                }
            },
            None => {
                self.names.push(owned);
                self.values.push(value);
                proof {
                    let more = texts(self.names@);
                    assert(more =~= names.push(name@));
                    assert(more.drop_last() =~= names);
                    assert forall|i: int, j: int| 0 <= i < j < more.len() implies more[i] != more[j] by {
                        if j < names.len() {
                            assert(names[i] != names[j]);
                        }
                    }
                    assert forall|key: Seq<char>| #[trigger] self@.contains_key(key) implies self@[key]
                        == old(self)@.insert(name@, value)[key] by {
                        lemma_lookup(names, key);
                    }
                    assert(self@ =~= old(self)@.insert(name@, value));
                }
            },
        }
    }

    /// Takes every entry out of the table.
    pub fn clear(&mut self)
        ensures
            final(self).wf(),
            final(self)@ == Map::<Seq<char>, V>::empty(),
            final(self).names().len() == 0,
    {
        self.names.clear();
        self.values.clear();
        proof {
            assert(self@ =~= Map::<Seq<char>, V>::empty());
        }
    }
}

} // verus!
