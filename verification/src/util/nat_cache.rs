//! The connections of a datagram forwarder, one for each client, kept in a
//! cache that forgets the clients that were silent for too long and, when
//! it is full, the client that was silent longest.
//!
//! The cache reads the clock by itself, so the contracts here state what
//! holds whatever the clock says: a connection that is handed out again was
//! in the cache under that client, and a client that was not in the cache
//! gets a connection of a new number.

use crate::address::{IpAddress, SocketAddress};
use crate::util::forward_udp::{NAT_CAPACITY, NAT_EXPIRY_MS};
use lru_time_cache::LruCache;
use vstd::prelude::*;

verus! {

#[verifier::external_type_specification]
#[verifier::external_body]
#[verifier::reject_recursive_types(Key)]
#[verifier::reject_recursive_types(Value)]
pub struct ExLruCache<Key, Value>(LruCache<Key, Value>);

/// A client as the cache keeps it: the version of its address, the address
/// as a number, and the port.
pub type ClientKey = (u8, u128, u16);

/// The cache of the connections: for each client the number of its connection.
pub type ClientCache = LruCache<ClientKey, u64>;

/// The entries that the cache holds: for each client the number of its
/// connection. An entry stays until the cache drops it, which it does when
/// it is used and finds the entry too old, or when it needs the room.
pub uninterp spec fn cached(cache: ClientCache) -> Map<ClientKey, u64>;

/// The number of entries that the cache was made for.
pub uninterp spec fn cache_capacity(cache: ClientCache) -> usize;

/// The longest expiry that a cache is made with, in milliseconds.
pub const MAX_EXPIRY_MS: u64 = 0xffff_ffff;

/// The largest capacity that a cache is made with.
pub const MAX_CAPACITY: usize = 0xffff;

/// Some client has the connection `id`.
pub open spec fn is_number_in(connections: Map<ClientKey, u64>, id: u64) -> bool {
    exists|k: ClientKey| #[trigger] connections.contains_key(k) && connections[k] == id
}

/// No connection for any client.
pub open spec fn no_connections() -> Map<ClientKey, u64> {
    Map::empty()
}

/// Every entry of `after` is an entry of `before`, but for the one of `key`.
pub open spec fn kept_from(before: Map<ClientKey, u64>, after: Map<ClientKey, u64>, key: ClientKey) -> bool {
    forall|k: ClientKey| k != key && #[trigger] after.contains_key(k) ==> before.contains_key(k) && before[k] == after[k]
}

/// The number `id` belonged to an entry of `before` that `after` no longer
/// holds, or that it holds anew under `key`.
pub open spec fn has_left(before: Map<ClientKey, u64>, after: Map<ClientKey, u64>, key: ClientKey, id: u64) -> bool {
    exists|k: ClientKey| #[trigger] before.contains_key(k) && before[k] == id && (k == key || !after.contains_key(k))
}

/// `LruCache::with_expiry_duration_and_capacity`: an empty cache whose
/// entries expire after `expiry_ms` milliseconds and that holds `capacity`
/// entries at most.
#[verifier::external_body]
fn cache_new(expiry_ms: u64, capacity: usize) -> (r: ClientCache)
    requires
        expiry_ms <= MAX_EXPIRY_MS,
        capacity <= MAX_CAPACITY,
    ensures
        cached(r) == no_connections(),
        cache_capacity(r) == capacity,
{
    LruCache::with_expiry_duration_and_capacity(std::time::Duration::from_millis(expiry_ms), capacity)
}

/// `LruCache::notify_get`: the cache drops the entries that it finds too
/// old and hands out their values; then it looks for `key` among the rest.
/// No entry is added or changed.
#[verifier::external_body]
fn cache_get(cache: &mut ClientCache, key: ClientKey) -> (r: (Option<u64>, Vec<u64>))
    ensures
        cache_capacity(*final(cache)) == cache_capacity(*old(cache)),
        forall|k: ClientKey| #[trigger]
            cached(*final(cache)).contains_key(k) ==> cached(*old(cache)).contains_key(k) && cached(*old(cache))[k]
                == cached(*final(cache))[k],
        r.0 == (if cached(*final(cache)).contains_key(key) {
            Some(cached(*final(cache))[key])
        } else {
            None
        }),
        forall|i: int| 0 <= i < r.1@.len() ==> has_left(cached(*old(cache)), cached(*final(cache)), key, #[trigger] r.1@[i]),
{
    let (found, expired) = cache.notify_get(&key);
    (found.copied(), expired.into_iter().map(|entry| entry.1).collect())
}

/// `LruCache::notify_insert`: the cache drops the entries that it finds
/// too old and hands out their values, makes room where it is full, and
/// then holds `id` under `key`. No other entry is added or changed.
#[verifier::external_body]
fn cache_insert(cache: &mut ClientCache, key: ClientKey, id: u64) -> (r: Vec<u64>)
    requires
        cache_capacity(*old(cache)) > 0,
    ensures
        cache_capacity(*final(cache)) == cache_capacity(*old(cache)),
        cached(*final(cache)).contains_key(key),
        cached(*final(cache))[key] == id,
        kept_from(cached(*old(cache)), cached(*final(cache)), key),
        forall|i: int| 0 <= i < r@.len() ==> has_left(cached(*old(cache)), cached(*final(cache)), key, #[trigger] r@[i]),
{
    let (_, expired) = cache.notify_insert(key, id);
    expired.into_iter().map(|entry| entry.1).collect()
}

/// `LruCache::peek_iter`: the values of the entries that the cache does not
/// find too old, the most recently used first. The cache is left as it is.
#[verifier::external_body]
fn cache_live(cache: &ClientCache) -> (r: Vec<u64>)
    ensures
        forall|i: int| 0 <= i < r@.len() ==> is_number_in(cached(*cache), #[trigger] r@[i]),
{
    cache.peek_iter().map(|entry| *entry.1).collect()
}

/// The key under which the cache keeps a client.
pub open spec fn key_of(client: SocketAddress) -> ClientKey {
    match client.ip {
        IpAddress::V4(ip) => (4u8, ip as u128, client.port),
        IpAddress::V6(ip) => (6u8, ip, client.port),
    }
}

/// The key under which the cache keeps a client.
pub fn client_key(client: SocketAddress) -> (r: ClientKey)
    ensures
        r == key_of(client),
{
    match client.ip {
        IpAddress::V4(ip) => (4u8, ip as u128, client.port),
        IpAddress::V6(ip) => (6u8, ip, client.port),
    }
}

/// Two clients with one key are one client.
pub proof fn lemma_key_of_is_one_to_one(a: SocketAddress, b: SocketAddress)
    requires
        key_of(a) == key_of(b),
    ensures
        a == b,
{
    match (a.ip, b.ip) {
        (IpAddress::V4(x), IpAddress::V4(y)) => {
            assert(x as u128 == y as u128);
        },
        _ => {},
    }
}

/// The connections of the clients of a forwarder, by number. The sockets
/// themselves are kept by whoever runs the forwarder, under these numbers.
pub struct ForwardUdp {
    pub conn: ClientCache,
    /// The number that the next new connection gets.
    pub next_id: u64,
}

/// What was found for a client.
#[derive(Debug)]
pub struct Lookup {
    /// The connection of the client, if there is one or one can be made.
    pub connection: Option<u64>,
    /// Whether the connection is new, so that its socket has to be bound.
    pub created: bool,
    /// The connections that the cache dropped as too old.
    pub expired: Vec<u64>,
}

impl ForwardUdp {
    /// The connections that the cache holds, by client.
    pub open spec fn connections(&self) -> Map<ClientKey, u64> {
        cached(self.conn)
    }

    /// The cache has room for a connection, and every connection in it has
    /// a number that was given out before.
    pub open spec fn wf(&self) -> bool {
        &&& cache_capacity(self.conn) > 0
        &&& forall|k: ClientKey| #[trigger] self.connections().contains_key(k) ==> self.connections()[k] < self.next_id
    }

    /// What `get` does for `client`, from the connections `self` to the
    /// connections `after`.
    ///
    /// A connection that is handed out again was the connection of this
    /// client, and nothing new is made for it. A client without a
    /// connection gets one whose number no connection had before; so does a
    /// client whose connection the cache dropped as too old. Either way the
    /// cache then holds the connection under the client. No connection is
    /// handed out only where a new one is wanted and the numbers have run
    /// out. The connections of other clients stay as they are or leave.
    pub open spec fn got(&self, client: SocketAddress, r: Lookup, after: &ForwardUdp) -> bool {
        let key = key_of(client);
        let before = self.connections();
        let now = after.connections();
        &&& kept_from(before, now, key)
        &&& forall|i: int| 0 <= i < r.expired@.len() ==> has_left(before, now, key, #[trigger] r.expired@[i])
        &&& !before.contains_key(key) && self.next_id < u64::MAX ==> r.created
        &&& r.connection is None ==> self.next_id == u64::MAX && !now.contains_key(key)
        &&& r.created ==> r.connection == Some(self.next_id)
        &&& after.next_id == (if r.created {
            self.next_id + 1
        } else {
            self.next_id as int
        })
        &&& match r.connection {
            Some(id) => {
                &&& now.contains_key(key)
                &&& now[key] == id
                &&& !r.created ==> before.contains_key(key) && before[key] == id
            },
            None => !r.created,
        }
    }

    /// No connections yet, in a cache for `capacity` clients that drops a
    /// client after `expiry_ms` milliseconds of silence.
    pub fn with_expiry_and_capacity(expiry_ms: u64, capacity: usize) -> (r: ForwardUdp)
        requires
            expiry_ms <= MAX_EXPIRY_MS,
            0 < capacity <= MAX_CAPACITY,
        ensures
            r.wf(),
            r.connections() == no_connections(),
            r.next_id == 0,
            cache_capacity(r.conn) == capacity,
    {
        ForwardUdp { conn: cache_new(expiry_ms, capacity), next_id: 0 }
    }

    /// No connections yet, in a cache of the usual size and patience.
    pub fn new() -> (r: ForwardUdp)
        ensures
            r.wf(),
            r.connections() == no_connections(),
            r.next_id == 0,
            cache_capacity(r.conn) == NAT_CAPACITY,
    {
        ForwardUdp::with_expiry_and_capacity(NAT_EXPIRY_MS, NAT_CAPACITY)
    }

    /// The connection of the client `bind_from`: the one it has, or a new one.
    pub fn get(&mut self, bind_from: SocketAddress) -> (r: Lookup)
        requires
            old(self).wf(),
        ensures
            final(self).wf(),
            cache_capacity(final(self).conn) == cache_capacity(old(self).conn),
            old(self).got(bind_from, r, final(self)),
    {
        let key = client_key(bind_from);
        let ghost before = self.connections();
        let (found, expired) = cache_get(&mut self.conn, key);
        let ghost mid = self.connections();
        match found {
            Some(id) => Lookup { connection: Some(id), created: false, expired },
            None => {
                if self.next_id == u64::MAX {
                    return Lookup { connection: None, created: false, expired };
                }
                let id = self.next_id;
                let more = cache_insert(&mut self.conn, key, id);
                self.next_id = id + 1;
                let mut all = expired;
                let ghost first = all@;
                let mut more = more;
                all.append(&mut more);
                proof {
                    let now = self.connections();
                    assert forall|i: int| 0 <= i < all@.len() implies has_left(before, now, key, #[trigger] all@[i]) by {
                        if i < first.len() {
                            assert(all@[i] == first[i]);
                            assert(has_left(before, mid, key, first[i]));
                            let k = choose|k: ClientKey| #[trigger]
                                before.contains_key(k) && before[k] == first[i] && (k == key || !mid.contains_key(k));
                            assert(k == key || !now.contains_key(k));
                        } else {
                            let id = all@[i];
                            assert(has_left(mid, now, key, id));
                            let k = choose|k: ClientKey| #[trigger]
                                mid.contains_key(k) && mid[k] == id && (k == key || !now.contains_key(k));
                            assert(before.contains_key(k) && before[k] == id);
                        }
                    }
                }
                Lookup { connection: Some(id), created: true, expired: all }
            },
        }
    }

    /// The connections that the cache still holds and does not find too
    /// old. Whoever keeps the sockets can close every other one.
    pub fn live(&self) -> (r: Vec<u64>)
        ensures
            forall|i: int| 0 <= i < r@.len() ==> is_number_in(self.connections(), #[trigger] r@[i]),
    {
        cache_live(&self.conn)
    }
}

} // verus!
