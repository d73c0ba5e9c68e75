//! Tables of named things: what a configuration or a registry holds under
//! each name.

use crate::lru::{lemma_place_of, place_of};
use vstd::prelude::*;

verus! {

/// A name and what stands under it.
#[derive(Debug)]
pub struct Named<T> {
    pub name: String,
    pub value: T,
}

/// A table in which no name occurs twice.
#[derive(Debug)]
pub struct NameTable<T> {
    pub entries: Vec<Named<T>>,
}

/// The names of the entries.
pub open spec fn entry_names<T>(entries: Seq<Named<T>>) -> Seq<Seq<char>> {
    Seq::new(entries.len(), |i: int| entries[i].name@)
}

impl<T> NameTable<T> {
    /// The names, in the order in which they were added.
    pub open spec fn names(&self) -> Seq<Seq<char>> {
        entry_names(self.entries@)
    }

    /// No name occurs twice.
    pub open spec fn wf(&self) -> bool {
        self.names().no_duplicates()
    }

    /// Whether the table holds `name`.
    pub open spec fn has(&self, name: Seq<char>) -> bool {
        place_of(self.names(), name) < self.names().len()
    }

    /// What stands under a name that the table holds.
    pub open spec fn value_of(&self, name: Seq<char>) -> T {
        self.entries@[place_of(self.names(), name)].value
    }

    /// The two tables hold the same under every name but `name`.
    pub open spec fn agrees_but(&self, other: &Self, name: Seq<char>) -> bool {
        forall|n: Seq<char>|
            n != name ==> #[trigger] self.has(n) == other.has(n) && (other.has(n) ==> self.value_of(n) == other.value_of(
                n,
            ))
    }

    pub fn new() -> (r: NameTable<T>)
        ensures
            r.wf(),
            r.entries@.len() == 0,
    {
        NameTable { entries: Vec::new() }
    }

    /// The number of entries.
    pub fn len(&self) -> (r: usize)
        ensures
            r == self.entries@.len(),
    {
        self.entries.len()
    }

    /// The place of `name`, if the table holds it.
    pub fn find(&self, name: &String) -> (r: Option<usize>)
        ensures
            match r {
                Some(p) => p == place_of(self.names(), name@) && p < self.entries@.len() && self.entries@[p as int].name@
                    == name@,
                None => !self.has(name@),
            },
    {
        proof {
            lemma_place_of(self.names(), name@);
        }
        let mut i: usize = 0;
        while i < self.entries.len()
            invariant
                i <= self.entries@.len(),
                forall|j: int| 0 <= j < i ==> self.names()[j] != name@,
                0 <= place_of(self.names(), name@) <= self.names().len(),
                forall|j: int| 0 <= j < place_of(self.names(), name@) ==> self.names()[j] != name@,
                place_of(self.names(), name@) < self.names().len() ==> self.names()[place_of(self.names(), name@)]
                    == name@,
            decreases self.entries@.len() - i,
        {
            if self.entries[i].name == *name {
                assert(self.names()[i as int] == name@);
                return Some(i);
            }
            i += 1;
        }
        None
    }

    /// Whether the table holds `name`.
    pub fn contains_key(&self, name: &String) -> (r: bool)
        ensures
            r == self.has(name@),
    {
        self.find(name).is_some()
    }

    /// What stands under `name`, if the table holds it.
    pub fn get(&self, name: &String) -> (r: Option<&T>)
        ensures
            match r {
                Some(v) => self.has(name@) && *v == self.value_of(name@),
                None => !self.has(name@),
            },
    {
        match self.find(name) {
            Some(p) => Some(&self.entries[p].value),
            None => None,
        }
    }

    /// Puts `value` under `name`: in the place of what stood there, or at the
    /// end where the name is new. Returns whether the name was there before.
    pub fn insert(&mut self, name: String, value: T) -> (r: bool)
        requires
            old(self).wf(),
        ensures
            final(self).wf(),
            r == old(self).has(name@),
            final(self).has(name@),
            final(self).value_of(name@) == value,
            r ==> final(self).names() == old(self).names(),
            !r ==> final(self).names() == old(self).names().push(name@),
            final(self).agrees_but(old(self), name@),
    {
        let ghost names0 = self.names();
        let ghost before = *self;
        proof {
            lemma_place_of(names0, name@);
        }
        match self.find(&name) {
            Some(p) => {
                self.entries[p].value = value;
                proof {
                    assert(self.names() =~= names0);
                    assert forall|n: Seq<char>| n != name@ implies #[trigger] self.has(n) == before.has(n) && (before.has(
                        n,
                    ) ==> self.value_of(n) == before.value_of(n)) by {
                        lemma_place_of(names0, n);
                    }
                }
                true
            },
            None => {
                self.entries.push(Named { name, value });
                proof {
                    let names1 = self.names();
                    assert(names1 =~= names0.push(name@));
                    lemma_place_pushed(names0, name@, name@);
                    assert forall|n: Seq<char>| n != name@ implies #[trigger] self.has(n) == before.has(n) && (before.has(
                        n,
                    ) ==> self.value_of(n) == before.value_of(n)) by {
                        lemma_place_pushed(names0, name@, n);
                        lemma_place_of(names0, n);
                    }
                    assert forall|a: int, b: int| 0 <= a < names1.len() && 0 <= b < names1.len() && a != b implies names1[a]
                        != names1[b] by {
                        if a < names0.len() && b < names0.len() {
                            assert(names1[a] == names0[a]);
                            assert(names1[b] == names0[b]);
                        } else if a < names0.len() {
                            assert(names1[a] == names0[a]);
                        } else {
                            assert(names1[b] == names0[b]);
                        }
                    }
                }
                false
            },
        }
    }
}

/// The place of a key in a list with one more key at its end.
pub proof fn lemma_place_pushed<KV>(keys: Seq<KV>, last: KV, key: KV)
    ensures
        place_of(keys, key) < keys.len() ==> place_of(keys.push(last), key) == place_of(keys, key),
        place_of(keys, key) >= keys.len() && key == last ==> place_of(keys.push(last), key) == keys.len(),
        place_of(keys, key) >= keys.len() && key != last ==> place_of(keys.push(last), key) == keys.len() + 1,
    decreases keys.len(),
{
    lemma_place_of(keys, key);
    let pushed = keys.push(last);
    if keys.len() == 0 {
        assert(pushed.skip(1) =~= Seq::<KV>::empty());
        lemma_place_of(pushed.skip(1), key);
    } else {
        assert(pushed[0] == keys[0]);
        if keys[0] != key {
            assert(pushed.skip(1) =~= keys.skip(1).push(last));
            lemma_place_pushed(keys.skip(1), last, key);
            lemma_place_of(keys.skip(1), key);
        }
    }
}

} // verus!
