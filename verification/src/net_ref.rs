//! References to nets by name, and the map from names to the nets that have
//! been built.

use vstd::prelude::*;

verus! {

/// A net that has been built: its number in the table that the runtime keeps.
#[derive(Clone, Copy, Debug, PartialEq, Eq, Structural)]
pub struct NetHandle {
    pub id: usize,
}

impl View for NetHandle {
    type V = NetHandle;

    open spec fn view(&self) -> NetHandle {
        *self
    }
}

/// What a `NetRef` says: the name it refers to, and the net once it is resolved.
pub struct NetRefView {
    pub name: Seq<char>,
    pub net: Option<NetHandle>,
}

/// A placeholder in a typed configuration: the name of a net, and a slot for
/// the net itself, empty until the reference is resolved.
#[derive(Debug)]
pub struct NetRef {
    pub name: String,
    pub net: Option<NetHandle>,
}

impl View for NetRef {
    type V = NetRefView;

    open spec fn view(&self) -> NetRefView {
        NetRefView { name: self.name@, net: self.net }
    }
}

impl Clone for NetRef {
    fn clone(&self) -> (r: NetRef)
        ensures
            r@ == self@,
    {
        NetRef { name: self.name.clone(), net: self.net }
    }
}

impl Default for NetRef {
    /// A reference to the net `local`, unresolved.
    fn default() -> (r: NetRef)
        ensures
            r@.name == "local"@,
            r@.net is None,
    {
        NetRef { name: "local".to_string(), net: None }
    }
}

impl NetRef {
    /// An unresolved reference to the net called `name`.
    pub fn new(name: String) -> (r: NetRef)
        ensures
            r@ == (NetRefView { name: name@, net: None }),
    {
        NetRef { name, net: None }
    }

    /// The name that the reference holds.
    pub fn name(&self) -> (r: &String)
        ensures
            r@ == self@.name,
    {
        &self.name
    }

    /// Fills the slot.
    pub fn set_net(&mut self, net: NetHandle)
        ensures
            final(self)@ == (NetRefView { name: old(self)@.name, net: Some(net) }),
    {
        self.net = Some(net);
    }

    /// Whether the slot is filled.
    pub fn is_resolved(&self) -> (r: bool)
        ensures
            r == (self@.net is Some),
    {
        self.net.is_some()
    }

    /// The net of a resolved reference.
    pub fn net(&self) -> (r: NetHandle)
        requires
            self@.net is Some,
        ensures
            Some(r) == self@.net,
    {
        self.net.unwrap()
    }

    /// The net, if the reference is resolved.
    pub fn value(&self) -> (r: Option<NetHandle>)
        ensures
            r == self@.net,
    {
        self.net
    }
}

/// One name and the net built under it.
#[derive(Debug)]
pub struct NetEntry {
    pub name: String,
    pub net: NetHandle,
}

/// The nets built so far, by name.
#[derive(Debug)]
pub struct NetMap {
    pub entries: Vec<NetEntry>,
}

/// Whether some entry at or after `from` has the name.
pub open spec fn names_from(entries: Seq<NetEntry>, name: Seq<char>, from: int) -> bool {
    exists|i: int| from <= i < entries.len() && (#[trigger] entries[i]).name@ == name
}

impl NetMap {
    /// No name occurs twice.
    pub open spec fn wf(&self) -> bool {
        forall|i: int, j: int|
            0 <= i < j < self.entries@.len() ==> (#[trigger] self.entries@[i]).name@ != (#[trigger] self.entries@[j]).name@
    }

    /// The index of the entry called `name`.
    pub open spec fn index_of(&self, name: Seq<char>) -> int {
        choose|i: int| 0 <= i < self.entries@.len() && (#[trigger] self.entries@[i]).name@ == name
    }
}

impl View for NetMap {
    type V = Map<Seq<char>, NetHandle>;

    open spec fn view(&self) -> Map<Seq<char>, NetHandle> {
        Map::new(
            |name: Seq<char>| names_from(self.entries@, name, 0),
            |name: Seq<char>| self.entries@[self.index_of(name)].net,
        )
    }
}

impl NetMap {
    pub fn new() -> (r: NetMap)
        ensures
            r.wf(),
            r@ == Map::<Seq<char>, NetHandle>::empty(),
    {
        let r = NetMap { entries: Vec::new() };
        assert(r@ =~= Map::<Seq<char>, NetHandle>::empty());
        r
    }

    /// The number of nets.
    pub fn len(&self) -> (r: usize)
        ensures
            r == self.entries@.len(),
    {
        self.entries.len()
    }

    /// The place of `name` among the entries.
    fn find(&self, name: &String) -> (r: Option<usize>)
        requires
            self.wf(),
        ensures
            match r {
                Some(i) => i < self.entries@.len() && self.entries@[i as int].name@ == name@
                    && self@.contains_key(name@) && self.index_of(name@) == i,
                None => !self@.contains_key(name@),
            },
    {
        let mut i: usize = 0;
        while i < self.entries.len()
            invariant
                self.wf(),
                i <= self.entries@.len(),
                forall|j: int| 0 <= j < i ==> (#[trigger] self.entries@[j]).name@ != name@,
            decreases self.entries@.len() - i,
        {
            if self.entries[i].name == *name {
                proof {
                    assert(self.entries@[i as int].name@ == name@);
                    assert(names_from(self.entries@, name@, 0));
                    let c = self.index_of(name@);
                    assert(self.entries@[c].name@ == name@);
                    assert(c == i);
                }
                return Some(i);
            }
            i += 1;
        }
        None
    }

    /// The net built under `name`, if there is one.
    pub fn get(&self, name: &String) -> (r: Option<NetHandle>)
        requires
            self.wf(),
        ensures
            r == (if self@.contains_key(name@) {
                Some(self@[name@])
            } else {
                None
            }),
    {
        match self.find(name) {
            Some(i) => Some(self.entries[i].net),
            None => None,
        }
    }

    /// Whether a net was built under `name`.
    pub fn contains_key(&self, name: &String) -> (r: bool)
        requires
            self.wf(),
        ensures
            r == self@.contains_key(name@),
    {
        self.find(name).is_some()
    }

    /// Puts `net` under `name`, in place of what stood there, and returns what stood there.
    pub fn insert(&mut self, name: String, net: NetHandle) -> (r: Option<NetHandle>)
        requires
            old(self).wf(),
        ensures
            final(self).wf(),
            final(self)@ == old(self)@.insert(name@, net),
            r == (if old(self)@.contains_key(name@) {
                Some(old(self)@[name@])
            } else {
                None
            }),
    {
        let ghost before = *self;
        match self.find(&name) {
            Some(i) => {
                let prev = self.entries[i].net;
                self.entries[i].net = net;
                proof {
                    let after = *self;
                    assert(after.entries@.len() == before.entries@.len());
                    assert forall|j: int| 0 <= j < after.entries@.len() implies (#[trigger] after.entries@[j]).name@
                        == before.entries@[j].name@ by {}
                    assert forall|n: Seq<char>| names_from(after.entries@, n, 0) == names_from(before.entries@, n, 0) by {
                        if names_from(after.entries@, n, 0) {
                            let w = choose|w: int| 0 <= w < after.entries@.len() && (#[trigger] after.entries@[w]).name@ == n;
                            assert(before.entries@[w].name@ == n);
                        }
                        if names_from(before.entries@, n, 0) {
                            let w = choose|w: int| 0 <= w < before.entries@.len() && (#[trigger] before.entries@[w]).name@ == n;
                            assert(after.entries@[w].name@ == n);
                        }
                    }
                    assert forall|n: Seq<char>| names_from(after.entries@, n, 0) implies after.index_of(n) == before.index_of(n) by {
                        let a = after.index_of(n);
                        let b = before.index_of(n);
                        assert(after.entries@[a].name@ == n);
                        assert(before.entries@[a].name@ == n);
                        assert(before.entries@[b].name@ == n);
                        assert(a == b);
                    }
                    assert(after@ =~= before@.insert(name@, net));
                }
                Some(prev)
            },
            None => {
                self.entries.push(NetEntry { name, net });
                proof {
                    let after = *self;
                    let last = before.entries@.len() as int;
                    assert(after.entries@ == before.entries@.push(after.entries@[last]));
                    assert forall|j: int| 0 <= j < last implies (#[trigger] after.entries@[j]) == before.entries@[j] by {}
                    assert(after.wf()) by {
                        assert forall|i: int, j: int| 0 <= i < j < after.entries@.len() implies (#[trigger] after.entries@[i]).name@
                            != (#[trigger] after.entries@[j]).name@ by {
                            if j == last {
                                assert(before.entries@[i].name@ != name@);
                            }
                        }
                    }
                    assert forall|n: Seq<char>| names_from(after.entries@, n, 0) == (n == name@ || names_from(
                        before.entries@,
                        n,
                        0,
                    )) by {
                        if names_from(after.entries@, n, 0) {
                            let w = choose|w: int| 0 <= w < after.entries@.len() && (#[trigger] after.entries@[w]).name@ == n;
                            if w < last {
                                assert(before.entries@[w].name@ == n);
                            }
                        }
                        if names_from(before.entries@, n, 0) {
                            let w = choose|w: int| 0 <= w < before.entries@.len() && (#[trigger] before.entries@[w]).name@ == n;
                            assert(after.entries@[w].name@ == n);
                        }
                        if n == name@ {
                            assert(after.entries@[last].name@ == n);
                        }
                    }
                    assert forall|n: Seq<char>| names_from(after.entries@, n, 0) implies after@[n] == before@.insert(
                        name@,
                        net,
                    )[n] by {
                        let a = after.index_of(n);
                        assert(after.entries@[a].name@ == n);
                        if n == name@ {
                            assert(after.entries@[last].name@ == n);
                            assert(a == last);
                        } else {
                            let b = before.index_of(n);
                            assert(before.entries@[b].name@ == n);
                            assert(after.entries@[b].name@ == n);
                            assert(a == b);
                        }
                    }
                    assert(after@ =~= before@.insert(name@, net));
                }
                None
            },
        }
    }
}

} // verus!
