//! Forwarding datagrams for many clients: the limits of the forwarder, the
//! queue of the datagrams on their way back, and a table of sockets by key
//! that is told the time: a socket is used again while its key keeps
//! sending and is dropped when the key has been silent for too long.

use crate::address::SocketAddress;
use crate::lru::{lemma_place_of, place_of, CacheKey};
use vstd::prelude::*;

verus! {

/// How long a client may be silent before its socket is dropped, in milliseconds.
pub const NAT_EXPIRY_MS: u64 = 30000;

/// The number of clients that have a socket at one time.
pub const NAT_CAPACITY: usize = 256;

/// The number of datagrams that wait for one socket at most.
pub const CONNECTION_QUEUE: usize = 64;

/// The number of datagrams that wait for the way back at most.
pub const SEND_BACK_QUEUE: usize = 1024;

/// How long binding a socket may take, in milliseconds.
pub const BIND_TIMEOUT_MS: u64 = 5000;

impl View for SocketAddress {
    type V = SocketAddress;

    open spec fn view(&self) -> SocketAddress {
        *self
    }
}

impl CacheKey for SocketAddress {
    fn same(&self, other: &Self) -> (r: bool) {
        *self == *other
    }
}

/// A datagram on its way back: where it came from, the client that it goes
/// to, and its size.
#[derive(Clone, Copy, Debug, PartialEq, Eq, Structural)]
pub struct UdpPacket {
    pub from: SocketAddress,
    pub to: SocketAddress,
    pub len: usize,
}

/// One socket of the table: the key it serves, its number, and when it
/// was last used.
pub struct NatEntry<K> {
    pub key: K,
    pub id: u64,
    pub last_used: u64,
}

/// The sockets, from the least recently used to the most recently used.
pub struct NatTable<K> {
    pub entries: Vec<NatEntry<K>>,
    pub capacity: usize,
    pub expiry: u64,
    pub next_id: u64,
}

/// What was decided for a datagram.
#[derive(Debug)]
pub struct NatDecision {
    /// The socket that the datagram goes out through, if there is one.
    pub connection: Option<u64>,
    /// Whether that socket has to be made first.
    pub created: bool,
    /// The sockets that are to be dropped.
    pub dropped: Vec<u64>,
}

/// Whether a socket that was last used at `last_used` is still good at `now`.
pub open spec fn is_live(last_used: u64, now: u64, expiry: u64) -> bool {
    now <= last_used || now - last_used <= expiry
}

/// The first `n` entries without those that are no longer good at `now`.
pub open spec fn kept<K>(entries: Seq<NatEntry<K>>, now: u64, expiry: u64, n: int) -> Seq<NatEntry<K>>
    decreases n,
{
    if n <= 0 {
        Seq::empty()
    } else {
        let before = kept(entries, now, expiry, n - 1);
        if is_live(entries[n - 1].last_used, now, expiry) {
            before.push(entries[n - 1])
        } else {
            before
        }
    }
}

/// The numbers of those of the first `n` entries that are no longer good at `now`.
pub open spec fn expired_ids<K>(entries: Seq<NatEntry<K>>, now: u64, expiry: u64, n: int) -> Seq<u64>
    decreases n,
{
    if n <= 0 {
        Seq::empty()
    } else {
        let before = expired_ids(entries, now, expiry, n - 1);
        if is_live(entries[n - 1].last_used, now, expiry) {
            before
        } else {
            before.push(entries[n - 1].id)
        }
    }
}

/// The keys of the entries.
pub open spec fn nat_keys<K: View>(entries: Seq<NatEntry<K>>) -> Seq<K::V> {
    Seq::new(entries.len(), |i: int| entries[i].key@)
}

/// What is kept is still good.
pub proof fn lemma_kept_is_live<K>(entries: Seq<NatEntry<K>>, now: u64, expiry: u64, n: int)
    requires
        0 <= n <= entries.len(),
    ensures
        forall|j: int|
            0 <= j < kept(entries, now, expiry, n).len() ==> is_live(
                (#[trigger] kept(entries, now, expiry, n)[j]).last_used,
                now,
                expiry,
            ),
    decreases n,
{
    if n > 0 {
        lemma_kept_is_live(entries, now, expiry, n - 1);
        let before = kept(entries, now, expiry, n - 1);
        let k = kept(entries, now, expiry, n);
        assert forall|j: int| 0 <= j < k.len() implies is_live((#[trigger] k[j]).last_used, now, expiry) by {
            if j < before.len() {
                assert(k[j] == before[j]);
            }
        }
    }
}

/// Whether `e` is one of the first `n` entries.
pub open spec fn is_among<K>(entries: Seq<NatEntry<K>>, n: int, e: NatEntry<K>) -> bool {
    exists|i: int| 0 <= i < n && #[trigger] entries[i] == e
}

/// What is kept is among the entries.
pub proof fn lemma_kept_is_among<K>(entries: Seq<NatEntry<K>>, now: u64, expiry: u64, n: int)
    requires
        0 <= n <= entries.len(),
    ensures
        kept(entries, now, expiry, n).len() <= n,
        forall|j: int|
            0 <= j < kept(entries, now, expiry, n).len() ==> is_among(entries, n, #[trigger] kept(entries, now, expiry, n)[j]),
    decreases n,
{
    if n > 0 {
        lemma_kept_is_among(entries, now, expiry, n - 1);
        let before = kept(entries, now, expiry, n - 1);
        let k = kept(entries, now, expiry, n);
        assert forall|j: int| 0 <= j < k.len() implies is_among(entries, n, #[trigger] k[j]) by {
            if j < before.len() {
                assert(k[j] == before[j]);
                assert(is_among(entries, n - 1, before[j]));
                let i = choose|i: int| 0 <= i < n - 1 && #[trigger] entries[i] == before[j];
                assert(entries[i] == k[j]);
            } else {
                assert(entries[n - 1] == k[j]);
            }
        }
    }
}

/// Among what is kept no key occurs twice, if none did before.
pub proof fn lemma_kept_is_unique<K: View>(entries: Seq<NatEntry<K>>, now: u64, expiry: u64, n: int)
    requires
        0 <= n <= entries.len(),
        nat_keys(entries).no_duplicates(),
    ensures
        nat_keys(kept(entries, now, expiry, n)).no_duplicates(),
    decreases n,
{
    if n > 0 {
        lemma_kept_is_unique(entries, now, expiry, n - 1);
        lemma_kept_is_among(entries, now, expiry, n - 1);
        let before = kept(entries, now, expiry, n - 1);
        let k = kept(entries, now, expiry, n);
        let kk = nat_keys(k);
        assert forall|a: int, b: int| 0 <= a < kk.len() && 0 <= b < kk.len() && a != b implies kk[a] != kk[b] by {
            if a < before.len() && b < before.len() {
                assert(nat_keys(before)[a] != nat_keys(before)[b]);
                assert(k[a] == before[a] && k[b] == before[b]);
            } else {
                let low = if a < b {
                    a
                } else {
                    b
                };
                assert(k[low] == before[low]);
                assert(is_among(entries, n - 1, before[low]));
                let i = choose|i: int| 0 <= i < n - 1 && #[trigger] entries[i] == before[low];
                assert(nat_keys(entries)[i] != nat_keys(entries)[n - 1]);
            }
        }
    }
}

impl<K: CacheKey> NatTable<K> {
    /// The keys, from the least recently used to the most recently used.
    pub open spec fn keys(&self) -> Seq<K::V> {
        nat_keys(self.entries@)
    }

    /// No key has two sockets, the table holds no more than its capacity,
    /// and every number that is in use lies below the next number.
    pub open spec fn wf(&self) -> bool {
        &&& self.keys().no_duplicates()
        &&& self.entries@.len() <= self.capacity
        &&& forall|i: int| 0 <= i < self.entries@.len() ==> (#[trigger] self.entries@[i]).id < self.next_id
    }

    /// Whether the table has a socket for `key`.
    pub open spec fn holds(&self, key: K::V) -> bool {
        place_of(self.keys(), key) < self.keys().len()
    }

    /// An empty table.
    pub fn new(capacity: usize, expiry: u64) -> (r: NatTable<K>)
        ensures
            r.wf(),
            r.entries@.len() == 0,
            r.capacity == capacity,
            r.expiry == expiry,
            r.next_id == 0,
    {
        let r = NatTable { entries: Vec::new(), capacity, expiry, next_id: 0 };
        assert(r.keys() =~= Seq::<K::V>::empty());
        r
    }

    /// The number of sockets.
    pub fn len(&self) -> (r: usize)
        ensures
            r == self.entries@.len(),
    {
        self.entries.len()
    }

    /// The place of `key`, if the table has a socket for it.
    fn find(&self, key: &K) -> (r: Option<usize>)
        ensures
            match r {
                Some(p) => p == place_of(self.keys(), key@) && p < self.keys().len(),
                None => place_of(self.keys(), key@) == self.keys().len(),
            },
    {
        proof {
            lemma_place_of(self.keys(), key@);
        }
        let mut i: usize = 0;
        while i < self.entries.len()
            invariant
                i <= self.entries@.len(),
                forall|j: int| 0 <= j < i ==> self.keys()[j] != key@,
                0 <= place_of(self.keys(), key@) <= self.keys().len(),
                forall|j: int| 0 <= j < place_of(self.keys(), key@) ==> self.keys()[j] != key@,
                place_of(self.keys(), key@) < self.keys().len() ==> self.keys()[place_of(self.keys(), key@)] == key@,
            decreases self.entries@.len() - i,
        {
            if self.entries[i].key.same(key) {
                assert(self.keys()[i as int] == key@);
                return Some(i);
            }
            i += 1;
        }
        None
    }

    /// Drops every socket that is no longer good at `now`, and returns
    /// their numbers.
    pub fn purge(&mut self, now: u64) -> (r: Vec<u64>)
        requires
            old(self).wf(),
        ensures
            final(self).wf(),
            final(self).capacity == old(self).capacity,
            final(self).expiry == old(self).expiry,
            final(self).next_id == old(self).next_id,
            final(self).entries@ == kept(old(self).entries@, now, old(self).expiry, old(self).entries@.len() as int),
            r@ == expired_ids(old(self).entries@, now, old(self).expiry, old(self).entries@.len() as int),
    {
        let ghost source = self.entries@;
        let ghost expiry = self.expiry;
        let mut all: Vec<NatEntry<K>> = Vec::new();
        core::mem::swap(&mut self.entries, &mut all);
        let mut live: Vec<NatEntry<K>> = Vec::new();
        let mut dropped: Vec<u64> = Vec::new();
        let ghost n = source.len() as int;
        while all.len() > 0
            invariant
                self.expiry == expiry,
                all@.len() <= n,
                n == source.len(),
                all@ == source.skip(n - all@.len()),
                live@ == kept(source, now, expiry, n - all@.len()),
                dropped@ == expired_ids(source, now, expiry, n - all@.len()),
            decreases all@.len(),
        {
            let ghost at = n - all@.len();
            let e = all.remove(0);
            proof {
                assert(e == source[at]);
                assert(all@ =~= source.skip(at + 1));
            }
            if now <= e.last_used || now - e.last_used <= self.expiry {
                live.push(e);
            } else {
                dropped.push(e.id);
            }
        }
        self.entries = live;
        proof {
            lemma_kept_is_unique(source, now, expiry, n);
            lemma_kept_is_among(source, now, expiry, n);
            let k = self.entries@;
            assert forall|i: int| 0 <= i < k.len() implies (#[trigger] k[i]).id < self.next_id by {
                assert(is_among(source, n, k[i]));
                let w = choose|w: int| 0 <= w < n && #[trigger] source[w] == k[i];
                assert(source[w].id < self.next_id);
            }
        }
        dropped
    }

    /// A datagram for `key` arrived at `now`.
    ///
    /// First every socket that is no longer good is dropped. A socket that
    /// the key then still has is used again and counts as used now. Else a
    /// socket with a fresh number is to be made; where the table is full,
    /// the least recently used socket is dropped for it. Where the numbers
    /// have run out, or the table has no room at all, the datagram has no
    /// socket.
    pub fn on_packet(&mut self, key: K, now: u64) -> (r: NatDecision)
        requires
            old(self).wf(),
        ensures
            final(self).wf(),
            final(self).capacity == old(self).capacity,
            final(self).expiry == old(self).expiry,
            nat_step(old(self), key, now, final(self), r),
    {
        let mut dropped = self.purge(now);
        let ghost live = self.entries@;
        let ghost keys = self.keys();
        proof {
            lemma_place_of(keys, key@);
        }
        let found = self.find(&key);
        match found {
            Some(p) => {
                let mut e = self.entries.remove(p);
                let id = e.id;
                e.last_used = now;
                self.entries.push(e);
                proof {
                    assert(self.entries@ =~= live.remove(p as int).push(NatEntry { last_used: now, ..live[p as int] }));
                    let now_keys = self.keys();
                    assert(keys[p as int] == key@);
                    assert(now_keys =~= keys.remove(p as int).push(key@));
                    crate::lru::lemma_moved_to_back_is_unique(keys, p as int);
                    assert(now_keys.no_duplicates());
                    lemma_place_of(now_keys, key@);
                    let q = place_of(now_keys, key@);
                    assert(now_keys[now_keys.len() - 1] == key@);
                    assert(q == now_keys.len() - 1) by {
                        if q < now_keys.len() - 1 {
                            assert(now_keys[q] == key@);
                            assert(now_keys[q] == now_keys[now_keys.len() - 1]);
                        }
                    }
                    assert forall|t: int| 0 <= t < self.entries@.len() implies (#[trigger] self.entries@[t]).id < self.next_id by {
                        if t < self.entries@.len() - 1 {
                            let s = if t < p {
                                t
                            } else {
                                t + 1
                            };
                            assert(self.entries@[t] == live[s]);
                        }
                    }
                }
                NatDecision { connection: Some(id), created: false, dropped }
            },
            None => {
                if self.capacity == 0 || self.next_id == u64::MAX {
                    return NatDecision { connection: None, created: false, dropped };
                }
                if self.entries.len() >= self.capacity {
                    let oldest = self.entries.remove(0);
                    dropped.push(oldest.id);
                    proof {
                        assert(self.entries@ =~= live.skip(1));
                        assert(self.keys() =~= keys.skip(1));
                    }
                }
                let ghost keys1 = self.keys();
                let ghost entries1 = self.entries@;
                let id = self.next_id;
                self.next_id = self.next_id + 1;
                self.entries.push(NatEntry { key, id, last_used: now });
                proof {
                    let now_keys = self.keys();
                    assert(now_keys =~= keys1.push(key@));
                    assert forall|j: int| 0 <= j < keys1.len() implies keys1[j] != key@ by {
                        if keys1.len() < keys.len() {
                            assert(keys1[j] == keys[j + 1]);
                        }
                    }
                    assert forall|a: int, b: int| 0 <= a < now_keys.len() && 0 <= b < now_keys.len() && a != b implies now_keys[a]
                        != now_keys[b] by {
                        if a < keys1.len() && b < keys1.len() {
                            if keys1.len() < keys.len() {
                                assert(keys1[a] == keys[a + 1] && keys1[b] == keys[b + 1]);
                            }
                        }
                    }
                    lemma_place_of(now_keys, key@);
                    let q = place_of(now_keys, key@);
                    assert(now_keys[now_keys.len() - 1] == key@);
                    assert(q == now_keys.len() - 1) by {
                        if q < now_keys.len() - 1 {
                            assert(now_keys[q] == keys1[q]);
                        }
                    }
                    assert forall|t: int| 0 <= t < self.entries@.len() implies (#[trigger] self.entries@[t]).id < self.next_id by {
                        if t < entries1.len() {
                            assert(self.entries@[t] == entries1[t]);
                            if entries1.len() < live.len() {
                                assert(entries1[t] == live[t + 1]);
                            } else {
                                assert(entries1[t] == live[t]);
                            }
                        }
                    }
                }
                NatDecision { connection: Some(id), created: true, dropped }
            },
        }
    }
}

/// How a datagram for `key` at `now` takes the table from `before` to
/// `after`, and what is decided for it.
pub open spec fn nat_step<K: CacheKey>(before: &NatTable<K>, key: K, now: u64, after: &NatTable<K>, r: NatDecision) -> bool {
    let live = kept(before.entries@, now, before.expiry, before.entries@.len() as int);
    let gone = expired_ids(before.entries@, now, before.expiry, before.entries@.len() as int);
    let p = place_of(nat_keys(live), key@);
    if p < live.len() {
        &&& r.connection == Some(live[p].id)
        &&& !r.created
        &&& r.dropped@ == gone
        &&& after.next_id == before.next_id
        &&& after.entries@ == live.remove(p).push(NatEntry { last_used: now, ..live[p] })
    } else if before.capacity == 0 || before.next_id == u64::MAX {
        &&& r.connection is None
        &&& !r.created
        &&& r.dropped@ == gone
        &&& after.next_id == before.next_id
        &&& after.entries@ == live
    } else {
        let made = NatEntry { key, id: before.next_id, last_used: now };
        &&& r.connection == Some(before.next_id)
        &&& r.created
        &&& after.next_id == before.next_id + 1
        &&& after.holds(key@)
        &&& if live.len() == before.capacity {
            r.dropped@ == gone.push(live[0].id) && after.entries@ == live.skip(1).push(made)
        } else {
            r.dropped@ == gone && after.entries@ == live.push(made)
        }
    }
}

/// Whether `e` is one of the entries that are kept of the first `n`.
pub open spec fn is_kept<K>(entries: Seq<NatEntry<K>>, now: u64, expiry: u64, n: int, e: NatEntry<K>) -> bool {
    exists|j: int| 0 <= j < kept(entries, now, expiry, n).len() && #[trigger] kept(entries, now, expiry, n)[j] == e
}

/// An entry that is still good is kept.
pub proof fn lemma_live_is_kept<K>(entries: Seq<NatEntry<K>>, now: u64, expiry: u64, n: int, i: int)
    requires
        0 <= i < n <= entries.len(),
        is_live(entries[i].last_used, now, expiry),
    ensures
        is_kept(entries, now, expiry, n, entries[i]),
    decreases n,
{
    let k = kept(entries, now, expiry, n);
    let before = kept(entries, now, expiry, n - 1);
    if i == n - 1 {
        assert(k[before.len() as int] == entries[i]);
    } else {
        lemma_live_is_kept(entries, now, expiry, n - 1, i);
        let j = choose|j: int| 0 <= j < before.len() && #[trigger] before[j] == entries[i];
        if is_live(entries[n - 1].last_used, now, expiry) {
            assert(k[j] == before[j]);
        } else {
            assert(k[j] == entries[i]);
        }
    }
}

/// A socket is used again exactly while it is good. A key that has a
/// socket that is still good at `now` gets that socket, and none is made.
/// A key that has no socket, or one that is no longer good, gets a socket
/// with a number that no socket of the table has, wherever the table has
/// room at all and a number is left.
pub proof fn lemma_socket_is_reused_while_live<K: CacheKey>(
    before: &NatTable<K>,
    key: K,
    now: u64,
    after: &NatTable<K>,
    r: NatDecision,
    i: int,
)
    requires
        before.wf(),
        nat_step(before, key, now, after, r),
        0 <= i < before.entries@.len(),
    ensures
        before.entries@[i].key@ == key@ && is_live(before.entries@[i].last_used, now, before.expiry) ==> !r.created
            && r.connection == Some(before.entries@[i].id) && after.next_id == before.next_id,
        r.created ==> r.connection == Some(before.next_id) && before.entries@[i].id != before.next_id && (
        before.entries@[i].key@ == key@ ==> !is_live(before.entries@[i].last_used, now, before.expiry)),
        !before.holds(key@) && before.capacity > 0 && before.next_id < u64::MAX ==> r.created,
        before.entries@[i].key@ == key@ && !is_live(before.entries@[i].last_used, now, before.expiry) && before.capacity
            > 0 && before.next_id < u64::MAX ==> r.created,
{
    let entries = before.entries@;
    let n = entries.len() as int;
    let live = kept(entries, now, before.expiry, n);
    let p = place_of(nat_keys(live), key@);
    lemma_place_of(nat_keys(live), key@);
    lemma_kept_is_among(entries, now, before.expiry, n);
    lemma_kept_is_live(entries, now, before.expiry, n);
    if entries[i].key@ == key@ && is_live(entries[i].last_used, now, before.expiry) {
        lemma_live_is_kept(entries, now, before.expiry, n, i);
        let j = choose|j: int| 0 <= j < live.len() && #[trigger] live[j] == entries[i];
        assert(nat_keys(live)[j] == key@);
        assert(p < live.len());
    }
    if p < live.len() {
        assert(nat_keys(live)[p] == key@);
        assert(is_among(entries, n, live[p]));
        let m = choose|m: int| 0 <= m < n && #[trigger] entries[m] == live[p];
        assert(nat_keys(entries)[m] == key@);
        lemma_place_of(before.keys(), key@);
        assert(before.holds(key@));
        assert(is_live(entries[m].last_used, now, before.expiry));
        if entries[i].key@ == key@ {
            assert(nat_keys(entries)[i] == key@);
            assert(m == i);
        }
    }
}

/// Whether a datagram is taken into a queue that holds `queued` datagrams
/// already: a full queue takes no more, and the datagram is lost.
pub fn admits(queued: usize) -> (r: bool)
    ensures
        r == (queued < CONNECTION_QUEUE),
{
    queued < CONNECTION_QUEUE
}

/// A reply on its way to the client: what came in from `from` through the
/// socket of `client` goes back to `client`.
pub fn reply_packet(client: SocketAddress, from: SocketAddress, len: usize) -> (r: UdpPacket)
    ensures
        r == (UdpPacket { from, to: client, len }),
{
    UdpPacket { from, to: client, len }
}

/// The way back to the clients: one reply is held while the way is not free.
#[derive(Clone, Copy, Debug, PartialEq, Eq, Structural)]
pub struct SendBack {
    pub buf: Option<UdpPacket>,
}

/// What to do on the way back.
#[derive(Clone, Copy, Debug, PartialEq, Eq, Structural)]
pub enum SendBackAction {
    /// Send the reply that is held, once the way is free.
    Send(UdpPacket),
    /// Take the next reply from the queue.
    Receive,
}

impl SendBack {
    pub fn new() -> (r: SendBack)
        ensures
            r.buf is None,
    {
        SendBack { buf: None }
    }

    /// What comes next: the reply that is held, if one is, else the next
    /// one from the queue.
    pub fn next(&self) -> (r: SendBackAction)
        ensures
            r == (match self.buf {
                Some(p) => SendBackAction::Send(p),
                None => SendBackAction::Receive,
            }),
    {
        match self.buf {
            Some(p) => SendBackAction::Send(p),
            None => SendBackAction::Receive,
        }
    }

    /// The reply that was held has been sent.
    pub fn sent(&mut self)
        ensures
            final(self).buf is None,
    {
        self.buf = None;
    }

    /// A reply came from the queue; it is held until it is sent.
    pub fn received(&mut self, packet: UdpPacket)
        ensures
            final(self).buf == Some(packet),
    {
        self.buf = Some(packet);
    }
}

/// A socket that has been silent for longer than the table allows does not
/// outlive the next datagram that the table sees, whoever sends it.
pub proof fn lemma_idle_is_dropped<K: View>(entries: Seq<NatEntry<K>>, now: u64, expiry: u64, i: int)
    requires
        0 <= i < entries.len(),
        !is_live(entries[i].last_used, now, expiry),
        forall|a: int, b: int| 0 <= a < b < entries.len() ==> (#[trigger] entries[a]).id != (#[trigger] entries[b]).id,
    ensures
        forall|j: int|
            0 <= j < kept(entries, now, expiry, entries.len() as int).len() ==> (#[trigger] kept(
                entries,
                now,
                expiry,
                entries.len() as int,
            )[j]).id != entries[i].id,
        expired_ids(entries, now, expiry, entries.len() as int).contains(entries[i].id),
{
    let n = entries.len() as int;
    lemma_kept_is_among(entries, now, expiry, n);
    lemma_kept_is_live(entries, now, expiry, n);
    let k = kept(entries, now, expiry, n);
    assert forall|j: int| 0 <= j < k.len() implies (#[trigger] k[j]).id != entries[i].id by {
        assert(is_among(entries, n, k[j]));
        let w = choose|w: int| 0 <= w < n && #[trigger] entries[w] == k[j];
        if w == i {
            assert(is_live(k[j].last_used, now, expiry));
        } else if w < i {
            assert(entries[w].id != entries[i].id);
        } else {
            assert(entries[i].id != entries[w].id);
        }
    }
    lemma_expired_holds(entries, now, expiry, n, i);
}

/// The numbers of the expired entries hold the number of each expired entry.
pub proof fn lemma_expired_holds<K>(entries: Seq<NatEntry<K>>, now: u64, expiry: u64, n: int, i: int)
    requires
        0 <= i < n <= entries.len(),
        !is_live(entries[i].last_used, now, expiry),
    ensures
        expired_ids(entries, now, expiry, n).contains(entries[i].id),
    decreases n,
{
    let ids = expired_ids(entries, now, expiry, n);
    if i == n - 1 {
        assert(ids[ids.len() - 1] == entries[i].id);
    } else {
        lemma_expired_holds(entries, now, expiry, n - 1, i);
        let before = expired_ids(entries, now, expiry, n - 1);
        let w = choose|w: int| 0 <= w < before.len() && before[w] == entries[i].id;
        assert(ids[w] == entries[i].id);
    }
}

} // verus!
