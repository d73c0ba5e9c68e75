//! The live flows and their byte counts, kept from the events that the flows
//! report.

use crate::address::{Address, AddressView};
use crate::rabbit_digger::event::{Event, EventType, EventTypeView, EventView};
use crate::visitor::names_of;
use vstd::prelude::*;

verus! {

/// The two kinds of flow.
#[derive(Clone, Copy, Debug, PartialEq, Eq, Structural)]
pub enum Protocol {
    Tcp,
    Udp,
}

/// A live flow.
#[derive(Debug)]
pub struct Connection {
    pub uuid: u128,
    pub protocol: Protocol,
    pub addr: Address,
    pub start_time: u64,
    pub upload: u64,
    pub download: u64,
    pub net_chain: Vec<String>,
    /// Whether the flow was told to stop.
    pub stopped: bool,
}

/// What is known of a flow.
pub struct ConnectionView {
    pub protocol: Protocol,
    pub addr: AddressView,
    pub start_time: u64,
    pub upload: u64,
    pub download: u64,
    pub net_chain: Seq<Seq<char>>,
    pub stopped: bool,
}

impl View for Connection {
    type V = ConnectionView;

    open spec fn view(&self) -> ConnectionView {
        ConnectionView {
            protocol: self.protocol,
            addr: self.addr@,
            start_time: self.start_time,
            upload: self.upload,
            download: self.download,
            net_chain: names_of(self.net_chain@),
            stopped: self.stopped,
        }
    }
}

/// A count with `n` more, held at the largest value that the counter takes.
pub open spec fn counted(count: u64, n: usize) -> u64 {
    if count + n > u64::MAX {
        u64::MAX
    } else {
        (count + n) as u64
    }
}

/// The flows after one event: a new flow is entered with counts of zero, in
/// place of a flow of the same identifier; bytes are added to the counts of
/// a flow that is there; a closed flow leaves. An event about a flow that is
/// not there changes nothing.
pub open spec fn applied(state: Map<u128, ConnectionView>, e: EventView) -> Map<u128, ConnectionView> {
    match e.event_type {
        EventTypeView::NewTcp(addr, chain) => state.insert(
            e.uuid,
            ConnectionView {
                protocol: Protocol::Tcp,
                addr,
                start_time: e.time,
                upload: 0,
                download: 0,
                net_chain: chain,
                stopped: false,
            },
        ),
        EventTypeView::NewUdp(addr, chain) => state.insert(
            e.uuid,
            ConnectionView {
                protocol: Protocol::Udp,
                addr,
                start_time: e.time,
                upload: 0,
                download: 0,
                net_chain: chain,
                stopped: false,
            },
        ),
        EventTypeView::Inbound(n) => if state.contains_key(e.uuid) {
            state.insert(e.uuid, ConnectionView { download: counted(state[e.uuid].download, n), ..state[e.uuid] })
        } else {
            state
        },
        EventTypeView::Outbound(n) => if state.contains_key(e.uuid) {
            state.insert(e.uuid, ConnectionView { upload: counted(state[e.uuid].upload, n), ..state[e.uuid] })
        } else {
            state
        },
        EventTypeView::Closed => state.remove(e.uuid),
    }
}

/// The flows after a row of events, the first event first.
pub open spec fn applied_all(state: Map<u128, ConnectionView>, events: Seq<EventView>) -> Map<u128, ConnectionView>
    decreases events.len(),
{
    if events.len() == 0 {
        state
    } else {
        applied_all(applied(state, events[0]), events.skip(1))
    }
}

/// The events as what they say.
pub open spec fn events_view(events: Seq<Event>) -> Seq<EventView> {
    Seq::new(events.len(), |i: int| events[i]@)
}

/// The number of events that the manager takes in one go before it looks
/// whether anybody waits for the state.
pub const BATCH_SIZE: usize = 16;

/// How long the manager sleeps when no event waits, in milliseconds.
pub const IDLE_SLEEP_MS: u64 = 100;

/// The live flows.
#[derive(Debug)]
pub struct ConnectionManager {
    pub connections: Vec<Connection>,
}

/// The place of the flow `uuid`, or the number of flows.
pub open spec fn place_of_uuid(connections: Seq<Connection>, uuid: u128) -> int
    decreases connections.len(),
{
    if connections.len() == 0 {
        0
    } else if connections[0].uuid == uuid {
        0
    } else {
        1 + place_of_uuid(connections.skip(1), uuid)
    }
}

pub proof fn lemma_place_of_uuid(connections: Seq<Connection>, uuid: u128)
    ensures
        0 <= place_of_uuid(connections, uuid) <= connections.len(),
        forall|j: int| 0 <= j < place_of_uuid(connections, uuid) ==> (#[trigger] connections[j]).uuid != uuid,
        place_of_uuid(connections, uuid) < connections.len() ==> connections[place_of_uuid(connections, uuid)].uuid == uuid,
    decreases connections.len(),
{
    if connections.len() > 0 && connections[0].uuid != uuid {
        let rest = connections.skip(1);
        lemma_place_of_uuid(rest, uuid);
        assert forall|j: int| 0 <= j < place_of_uuid(connections, uuid) implies (#[trigger] connections[j]).uuid != uuid by {
            if j > 0 {
                assert(connections[j] == rest[j - 1]);
            }
        }
        if place_of_uuid(connections, uuid) < connections.len() {
            assert(connections[place_of_uuid(connections, uuid)] == rest[place_of_uuid(rest, uuid)]);
        }
    }
}

impl View for ConnectionManager {
    type V = Map<u128, ConnectionView>;

    open spec fn view(&self) -> Map<u128, ConnectionView> {
        Map::new(
            |uuid: u128| place_of_uuid(self.connections@, uuid) < self.connections@.len(),
            |uuid: u128| self.connections@[place_of_uuid(self.connections@, uuid)]@,
        )
    }
}

impl ConnectionManager {
    /// No identifier occurs twice.
    pub open spec fn wf(&self) -> bool {
        forall|i: int, j: int|
            0 <= i < j < self.connections@.len() ==> (#[trigger] self.connections@[i]).uuid != (
            #[trigger] self.connections@[j]).uuid
    }

    pub fn new() -> (r: ConnectionManager)
        ensures
            r.wf(),
            r@ == Map::<u128, ConnectionView>::empty(),
    {
        let r = ConnectionManager { connections: Vec::new() };
        assert(r@ =~= Map::<u128, ConnectionView>::empty());
        r
    }

    /// The place of the flow `uuid`, if it is there.
    fn find(&self, uuid: u128) -> (r: Option<usize>)
        ensures
            match r {
                Some(p) => p == place_of_uuid(self.connections@, uuid) && p < self.connections@.len()
                    && self.connections@[p as int].uuid == uuid,
                None => place_of_uuid(self.connections@, uuid) == self.connections@.len(),
            },
    {
        proof {
            lemma_place_of_uuid(self.connections@, uuid);
        }
        let mut i: usize = 0;
        while i < self.connections.len()
            invariant
                i <= self.connections@.len(),
                forall|j: int| 0 <= j < i ==> (#[trigger] self.connections@[j]).uuid != uuid,
                0 <= place_of_uuid(self.connections@, uuid) <= self.connections@.len(),
                forall|j: int|
                    0 <= j < place_of_uuid(self.connections@, uuid) ==> (#[trigger] self.connections@[j]).uuid != uuid,
                place_of_uuid(self.connections@, uuid) < self.connections@.len() ==> self.connections@[place_of_uuid(
                    self.connections@,
                    uuid,
                )].uuid == uuid,
            decreases self.connections@.len() - i,
        {
            if self.connections[i].uuid == uuid {
                return Some(i);
            }
            i += 1;
        }
        None
    }

    /// Takes one event in.
    pub fn input_event(&mut self, event: Event)
        requires
            old(self).wf(),
        ensures
            final(self).wf(),
            final(self)@ == applied(old(self)@, event@),
    {
        let ghost before = *self;
        let ghost ev = event@;
        let Event { uuid, event_type, time } = event;
        let found = self.find(uuid);
        match event_type {
            EventType::NewTcp(addr, chain) => {
                let c = Connection {
                    uuid,
                    protocol: Protocol::Tcp,
                    addr,
                    start_time: time,
                    upload: 0,
                    download: 0,
                    net_chain: chain,
                    stopped: false,
                };
                self.put(found, c);
            },
            EventType::NewUdp(addr, chain) => {
                let c = Connection {
                    uuid,
                    protocol: Protocol::Udp,
                    addr,
                    start_time: time,
                    upload: 0,
                    download: 0,
                    net_chain: chain,
                    stopped: false,
                };
                self.put(found, c);
            },
            EventType::Inbound(n) => {
                if let Some(p) = found {
                    let d = self.connections[p].download;
                    let sum = if n as u128 + d as u128 > u64::MAX as u128 {
                        u64::MAX
                    } else {
                        d + n as u64
                    };
                    self.connections[p].download = sum;
                    proof {
                        lemma_after_update(before, *self, p as int);
                    }
                } else {
                    assert(self@ =~= applied(before@, ev));
                }
            },
            EventType::Outbound(n) => {
                if let Some(p) = found {
                    let u = self.connections[p].upload;
                    let sum = if n as u128 + u as u128 > u64::MAX as u128 {
                        u64::MAX
                    } else {
                        u + n as u64
                    };
                    self.connections[p].upload = sum;
                    proof {
                        lemma_after_update(before, *self, p as int);
                    }
                } else {
                    assert(self@ =~= applied(before@, ev));
                }
            },
            EventType::Closed => {
                if let Some(p) = found {
                    let _ = self.connections.remove(p);
                    proof {
                        lemma_after_remove(before, *self, p as int);
                    }
                } else {
                    assert(self@ =~= applied(before@, ev));
                }
            },
        }
    }

    /// Puts a flow in the place of the one with its identifier, or at the end.
    fn put(&mut self, found: Option<usize>, c: Connection)
        requires
            old(self).wf(),
            match found {
                Some(p) => p == place_of_uuid(old(self).connections@, c.uuid) && p < old(self).connections@.len(),
                None => place_of_uuid(old(self).connections@, c.uuid) == old(self).connections@.len(),
            },
        ensures
            final(self).wf(),
            final(self)@ == old(self)@.insert(c.uuid, c@),
    {
        let ghost before = *self;
        let ghost uuid = c.uuid;
        let ghost cv = c@;
        proof {
            lemma_place_of_uuid(before.connections@, uuid);
        }
        match found {
            Some(p) => {
                self.connections.set(p, c);
                proof {
                    lemma_after_update(before, *self, p as int);
                }
            },
            None => {
                self.connections.push(c);
                proof {
                    let after = *self;
                    let n = before.connections@.len() as int;
                    assert forall|i: int, j: int| 0 <= i < j < after.connections@.len() implies (
                    #[trigger] after.connections@[i]).uuid != (#[trigger] after.connections@[j]).uuid by {
                        if j == n {
                            assert(before.connections@[i].uuid != uuid);
                        }
                    }
                    assert forall|id: u128| #[trigger]
                        after@.contains_key(id) == before@.insert(uuid, cv).contains_key(id) && (after@.contains_key(id)
                            ==> after@[id] == before@.insert(uuid, cv)[id]) by {
                        lemma_place_of_uuid(before.connections@, id);
                        lemma_place_of_uuid(after.connections@, id);
                        let pb = place_of_uuid(before.connections@, id);
                        let pa = place_of_uuid(after.connections@, id);
                        if pb < n {
                            assert(after.connections@[pb].uuid == id);
                            if pa < pb {
                                assert(before.connections@[pa].uuid == id);
                            }
                        } else if id == uuid {
                            assert(after.connections@[n].uuid == id);
                            if pa < n {
                                assert(before.connections@[pa].uuid == id);
                            }
                        } else {
                            if pa < after.connections@.len() {
                                if pa < n {
                                    assert(before.connections@[pa].uuid == id);
                                }
                            }
                        }
                    }
                    assert(after@ =~= before@.insert(uuid, cv));
                }
            },
        }
    }

    /// Takes a row of events in, the first event first.
    pub fn input_events(&mut self, events: Vec<Event>)
        requires
            old(self).wf(),
        ensures
            final(self).wf(),
            final(self)@ == applied_all(old(self)@, events_view(events@)),
    {
        let ghost all = events_view(events@);
        let ghost start = self@;
        let mut rest = events;
        while rest.len() > 0
            invariant
                self.wf(),
                applied_all(self@, events_view(rest@)) == applied_all(start, all),
            decreases rest@.len(),
        {
            let ghost views = events_view(rest@);
            let event = rest.remove(0);
            proof {
                assert(views[0] == event@);
                assert(events_view(rest@) =~= views.skip(1));
            }
            self.input_event(event);
        }
        proof {
            assert(events_view(rest@).len() == 0);
        }
    }

    /// Tells the flow `uuid` to stop, and says whether there is such a flow.
    /// The flow stays in the state until it reports that it ended.
    pub fn stop_connection(&mut self, uuid: u128) -> (r: bool)
        requires
            old(self).wf(),
        ensures
            final(self).wf(),
            r == old(self)@.contains_key(uuid),
            final(self)@ == (if r {
                old(self)@.insert(uuid, ConnectionView { stopped: true, ..old(self)@[uuid] })
            } else {
                old(self)@
            }),
    {
        let ghost before = *self;
        match self.find(uuid) {
            Some(p) => {
                self.connections[p].stopped = true;
                proof {
                    lemma_after_update(before, *self, p as int);
                }
                true
            },
            None => false,
        }
    }

    /// The live flows.
    pub fn borrow_state(&self) -> (r: &Vec<Connection>)
        ensures
            *r == self.connections,
    {
        &self.connections
    }

    /// The number of live flows.
    pub fn len(&self) -> (r: usize)
        ensures
            r == self.connections@.len(),
    {
        self.connections.len()
    }
}

/// After the flow at place `p` was replaced by one of the same identifier,
/// the state holds the new flow under the identifier and is otherwise as it was.
pub proof fn lemma_after_update(before: ConnectionManager, after: ConnectionManager, p: int)
    requires
        before.wf(),
        0 <= p < before.connections@.len(),
        after.connections@.len() == before.connections@.len(),
        after.connections@[p].uuid == before.connections@[p].uuid,
        forall|i: int| 0 <= i < before.connections@.len() && i != p ==> after.connections@[i] == before.connections@[i],
    ensures
        after.wf(),
        after@ == before@.insert(before.connections@[p].uuid, after.connections@[p]@),
{
    let uuid = before.connections@[p].uuid;
    assert forall|i: int, j: int| 0 <= i < j < after.connections@.len() implies (#[trigger] after.connections@[i]).uuid != (
    #[trigger] after.connections@[j]).uuid by {
        assert(after.connections@[i].uuid == before.connections@[i].uuid);
        assert(after.connections@[j].uuid == before.connections@[j].uuid);
    }
    assert forall|id: u128| #[trigger]
        after@.contains_key(id) == before@.insert(uuid, after.connections@[p]@).contains_key(id) && (after@.contains_key(
            id,
        ) ==> after@[id] == before@.insert(uuid, after.connections@[p]@)[id]) by {
        lemma_place_of_uuid(before.connections@, id);
        lemma_place_of_uuid(after.connections@, id);
        let pb = place_of_uuid(before.connections@, id);
        let pa = place_of_uuid(after.connections@, id);
        if pb < before.connections@.len() {
            assert(after.connections@[pb].uuid == id);
            if pa < pb {
                assert(before.connections@[pa].uuid == after.connections@[pa].uuid);
            }
        }
        if pa < after.connections@.len() {
            assert(before.connections@[pa].uuid == id);
            if pb < pa {
                assert(after.connections@[pb].uuid == before.connections@[pb].uuid);
            }
        }
    }
    assert(after@ =~= before@.insert(uuid, after.connections@[p]@));
}

/// After the flow at place `p` was taken out, the state is as it was but
/// for that flow.
pub proof fn lemma_after_remove(before: ConnectionManager, after: ConnectionManager, p: int)
    requires
        before.wf(),
        0 <= p < before.connections@.len(),
        after.connections@ == before.connections@.remove(p),
    ensures
        after.wf(),
        after@ == before@.remove(before.connections@[p].uuid),
{
    let uuid = before.connections@[p].uuid;
    let b = before.connections@;
    let a = after.connections@;
    assert forall|i: int| 0 <= i < a.len() implies a[i] == b[if i < p {
        i
    } else {
        i + 1
    }] by {}
    assert forall|i: int, j: int| 0 <= i < j < a.len() implies (#[trigger] a[i]).uuid != (#[trigger] a[j]).uuid by {
        let bi = if i < p {
            i
        } else {
            i + 1
        };
        let bj = if j < p {
            j
        } else {
            j + 1
        };
        assert(a[i] == b[bi]);
        assert(a[j] == b[bj]);
    }
    assert forall|id: u128| #[trigger]
        after@.contains_key(id) == before@.remove(uuid).contains_key(id) && (after@.contains_key(id) ==> after@[id]
            == before@.remove(uuid)[id]) by {
        lemma_place_of_uuid(b, id);
        lemma_place_of_uuid(a, id);
        let pb = place_of_uuid(b, id);
        let pa = place_of_uuid(a, id);
        if pa < a.len() {
            let bi = if pa < p {
                pa
            } else {
                pa + 1
            };
            assert(a[pa] == b[bi]);
            assert(b[bi].uuid == id);
            assert(id != uuid) by {
                if id == uuid {
                    assert(b[p].uuid == b[bi].uuid);
                }
            }
            assert(pb == bi) by {
                if pb < bi {
                    assert(b[pb].uuid == b[bi].uuid);
                }
            }
        }
        if pb < b.len() && id != uuid {
            let ai = if pb < p {
                pb
            } else {
                pb - 1
            };
            assert(a[ai] == b[pb]);
            assert(pa <= ai);
        }
    }
    assert(after@ =~= before@.remove(uuid));
}

} // verus!
