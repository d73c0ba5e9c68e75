//! A bounded cache that forgets what was used least recently.

use vstd::prelude::*;

verus! {

/// Keys that can be compared: `same` decides whether two keys say the same.
pub trait CacheKey: View {
    fn same(&self, other: &Self) -> (r: bool)
        ensures
            r == (self@ == other@),
    ;
}

/// One key of the cache and what is remembered for it.
pub struct CacheEntry<K, V> {
    pub key: K,
    pub value: V,
}

/// The cache: its entries from the least recently used to the most recently
/// used, and the number of entries that it holds at most.
pub struct BoundedCache<K, V> {
    pub capacity: usize,
    pub entries: Vec<CacheEntry<K, V>>,
}

/// The place of `key` among the keys, or the number of keys where it is not there.
pub open spec fn place_of<KV>(keys: Seq<KV>, key: KV) -> int
    decreases keys.len(),
{
    if keys.len() == 0 {
        0
    } else if keys[0] == key {
        0
    } else {
        1 + place_of(keys.skip(1), key)
    }
}

/// `place_of` is the first index that holds the key.
pub proof fn lemma_place_of<KV>(keys: Seq<KV>, key: KV)
    ensures
        0 <= place_of(keys, key) <= keys.len(),
        forall|j: int| 0 <= j < place_of(keys, key) ==> keys[j] != key,
        place_of(keys, key) < keys.len() ==> keys[place_of(keys, key)] == key,
    decreases keys.len(),
{
    if keys.len() > 0 && keys[0] != key {
        let rest = keys.skip(1);
        lemma_place_of(rest, key);
        assert forall|j: int| 0 <= j < place_of(keys, key) implies keys[j] != key by {
            if j > 0 {
                assert(keys[j] == rest[j - 1]);
            }
        }
        if place_of(keys, key) < keys.len() {
            assert(keys[place_of(keys, key)] == rest[place_of(rest, key)]);
        }
    }
}

impl<K: CacheKey, V> BoundedCache<K, V> {
    /// The keys, from the least recently used to the most recently used.
    pub open spec fn keys(&self) -> Seq<K::V> {
        Seq::new(self.entries@.len(), |i: int| self.entries@[i].key@)
    }

    /// The values, in the order of the keys.
    pub open spec fn values(&self) -> Seq<V> {
        Seq::new(self.entries@.len(), |i: int| self.entries@[i].value)
    }

    /// No key occurs twice, and the cache holds no more than its capacity.
    pub open spec fn wf(&self) -> bool {
        &&& self.keys().no_duplicates()
        &&& self.entries@.len() <= self.capacity
    }

    /// Whether the cache holds `key`.
    pub open spec fn holds(&self, key: K::V) -> bool {
        place_of(self.keys(), key) < self.keys().len()
    }

    /// What the cache remembers for a key that it holds.
    pub open spec fn value_of(&self, key: K::V) -> V {
        self.values()[place_of(self.keys(), key)]
    }

    /// An empty cache for at most `capacity` entries.
    pub fn new(capacity: usize) -> (r: BoundedCache<K, V>)
        ensures
            r.wf(),
            r.capacity == capacity,
            r.keys() == Seq::<K::V>::empty(),
    {
        let r = BoundedCache { capacity, entries: Vec::new() };
        assert(r.keys() =~= Seq::<K::V>::empty());
        r
    }

    /// The number of entries.
    pub fn len(&self) -> (r: usize)
        ensures
            r == self.keys().len(),
    {
        self.entries.len()
    }

    /// The place of `key`, if the cache holds it.
    fn find(&self, key: &K) -> (r: Option<usize>)
        ensures
            match r {
                Some(p) => p == place_of(self.keys(), key@) && p < self.keys().len(),
                None => !self.holds(key@),
            },
    {
        proof {
            lemma_place_of(self.keys(), key@);
        }
        let mut i: usize = 0;
        while i < self.entries.len()
            invariant
                i <= self.entries@.len(),
                forall|j: int| 0 <= j < i ==> self.keys()[j] != key@,
                0 <= place_of(self.keys(), key@) <= self.keys().len(),
                forall|j: int| 0 <= j < place_of(self.keys(), key@) ==> self.keys()[j] != key@,
                place_of(self.keys(), key@) < self.keys().len() ==> self.keys()[place_of(self.keys(), key@)] == key@,
            decreases self.entries@.len() - i,
        {
            if self.entries[i].key.same(key) {
                assert(self.keys()[i as int] == key@);
                return Some(i);
            }
            i += 1;
        }
        None
    }

    /// Whether the cache holds `key`. If it does, the entry becomes the most
    /// recently used one; the cache is otherwise left as it is.
    pub fn touch(&mut self, key: &K) -> (r: bool)
        requires
            old(self).wf(),
        ensures
            final(self).wf(),
            final(self).capacity == old(self).capacity,
            r == old(self).holds(key@),
            final(self).keys() == touched(old(self).keys(), place_of(old(self).keys(), key@)),
            final(self).values() == touched(old(self).values(), place_of(old(self).keys(), key@)),
    {
        match self.find(key) {
            Some(p) => {
                let ghost keys0 = self.keys();
                let ghost values0 = self.values();
                let ghost entries0 = self.entries@;
                let e = self.entries.remove(p);
                self.entries.push(e);
                proof {
                    lemma_place_of(keys0, key@);
                    assert(e == entries0[p as int]);
                    assert(keys0[p as int] == entries0[p as int].key@);
                    assert(self.entries@ =~= entries0.remove(p as int).push(e));
                    assert(self.keys() =~= keys0.remove(p as int).push(key@));
                    assert(self.values() =~= values0.remove(p as int).push(values0[p as int]));
                    lemma_moved_to_back_is_unique(keys0, p as int);
                }
                true
            },
            None => {
                proof {
                    lemma_place_of(self.keys(), key@);
                }
                false
            },
        }
    }

    /// What the cache remembers for the most recently used key.
    pub fn newest(&self) -> (r: &V)
        requires
            self.keys().len() > 0,
        ensures
            *r == self.values()[self.values().len() - 1],
    {
        &self.entries[self.entries.len() - 1].value
    }

    /// Remembers `value` for `key`, as the most recently used entry. An entry
    /// for the same key is replaced. Where the cache is full and the key is
    /// new, the least recently used entry leaves. A cache of capacity 0
    /// remembers nothing.
    pub fn insert(&mut self, key: K, value: V)
        requires
            old(self).wf(),
        ensures
            final(self).wf(),
            final(self).capacity == old(self).capacity,
            final(self).keys() == inserted(old(self).keys(), old(self).capacity, place_of(old(self).keys(), key@), key@),
            final(self).values() == inserted(
                old(self).values(),
                old(self).capacity,
                place_of(old(self).keys(), key@),
                value,
            ),
    {
        if self.capacity == 0 {
            return ;
        }
        let ghost keys0 = self.keys();
        let ghost values0 = self.values();
        proof {
            lemma_place_of(keys0, key@);
        }
        match self.find(&key) {
            Some(p) => {
                let _ = self.entries.remove(p);
                self.entries.push(CacheEntry { key, value });
                proof {
                    assert(self.keys() =~= keys0.remove(p as int).push(key@));
                    assert(self.values() =~= values0.remove(p as int).push(value));
                    lemma_moved_to_back_is_unique(keys0, p as int);
                }
            },
            None => {
                if self.entries.len() >= self.capacity {
                    let _ = self.entries.remove(0);
                    proof {
                        assert(self.keys() =~= keys0.skip(1));
                        assert(self.values() =~= values0.skip(1));
                    }
                }
                let ghost keys1 = self.keys();
                let ghost values1 = self.values();
                self.entries.push(CacheEntry { key, value });
                proof {
                    assert(self.keys() =~= keys1.push(key@));
                    assert(self.values() =~= values1.push(value));
                    assert forall|j: int| 0 <= j < keys1.len() implies keys1[j] != key@ by {
                        if keys1.len() < keys0.len() {
                            assert(keys1[j] == keys0[j + 1]);
                        }
                    }
                }
            },
        }
    }
}

/// A list of a cache after the entry at `place` was used: the entry goes to
/// the back. A place behind the end changes nothing.
pub open spec fn touched<T>(items: Seq<T>, place: int) -> Seq<T> {
    if 0 <= place < items.len() {
        items.remove(place).push(items[place])
    } else {
        items
    }
}

/// A list of a cache of the given capacity after an insertion of `item`,
/// where `place` is the place of the key among the keys, or the number of
/// keys where the key is new: the item goes to the back; what stood at the
/// place leaves, or, where the key is new and the list is full, what stood
/// first. With capacity 0 the list stays as it is.
pub open spec fn inserted<T>(items: Seq<T>, capacity: usize, place: int, item: T) -> Seq<T> {
    if capacity == 0 {
        items
    } else if place < items.len() {
        items.remove(place).push(item)
    } else if items.len() == capacity {
        items.skip(1).push(item)
    } else {
        items.push(item)
    }
}

/// What was inserted into a cache that remembers anything is held, as the
/// most recently used entry.
pub proof fn lemma_inserted_is_held<KV, V>(keys: Seq<KV>, values: Seq<V>, capacity: usize, key: KV, value: V)
    requires
        capacity > 0,
        keys.len() == values.len(),
        keys.no_duplicates(),
    ensures
        ({
            let p = place_of(keys, key);
            let k2 = inserted(keys, capacity, p, key);
            let v2 = inserted(values, capacity, p, value);
            &&& k2.len() == v2.len()
            &&& k2.len() > 0
            &&& place_of(k2, key) == k2.len() - 1
            &&& v2[place_of(k2, key)] == value
        }),
{
    let p = place_of(keys, key);
    lemma_place_of(keys, key);
    let k2 = inserted(keys, capacity, p, key);
    lemma_place_of(k2, key);
    let q = place_of(k2, key);
    assert(k2[k2.len() - 1] == key);
    if q < k2.len() - 1 {
        // the key would stand twice, or stand where it did not stand before
        if p < keys.len() {
            let i = if q < p {
                q
            } else {
                q + 1
            };
            assert(k2[q] == keys[i]);
            assert(keys[i] == keys[p]);
        } else if keys.len() == capacity {
            assert(k2[q] == keys[q + 1]);
        } else {
            assert(k2[q] == keys[q]);
        }
    }
}

/// Moving one key of a list without duplicates to the back leaves no duplicate.
pub proof fn lemma_moved_to_back_is_unique<KV>(keys: Seq<KV>, p: int)
    requires
        keys.no_duplicates(),
        0 <= p < keys.len(),
    ensures
        keys.remove(p).push(keys[p]).no_duplicates(),
        keys.remove(p).push(keys[p]).len() == keys.len(),
{
    let moved = keys.remove(p).push(keys[p]);
    assert forall|a: int, b: int| 0 <= a < moved.len() && 0 <= b < moved.len() && a != b implies moved[a] != moved[b] by {
        let ia = if a == moved.len() - 1 {
            p
        } else if a < p {
            a
        } else {
            a + 1
        };
        let ib = if b == moved.len() - 1 {
            p
        } else if b < p {
            b
        } else {
            b + 1
        };
        assert(moved[a] == keys[ia]);
        assert(moved[b] == keys[ib]);
    }
}

} // verus!
