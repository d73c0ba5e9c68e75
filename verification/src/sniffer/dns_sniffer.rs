//! The sniffing net: it watches the DNS replies that pass through its
//! sockets, and gives the flows that go to an address the domain back.

use crate::address::{Address, AddressView, IpAddress, SocketAddress};
use crate::context::{Context, ContextView, DestDomain, DestDomainView};
use crate::net_ref::NetHandle;
use crate::sniffer::dns::reply_of;
use crate::lru::{inserted, lemma_place_of, place_of, touched};
use crate::sniffer::service::{recorded_all, ReverseLookup, REVERSE_LOOKUP_CAPACITY};
use vstd::prelude::*;

verus! {

/// The port that DNS servers answer from.
pub const DNS_PORT: u16 = 53;

/// A net that wraps another net and remembers what the DNS replies say.
pub struct DNSSnifferNet {
    pub net: NetHandle,
    pub rl: ReverseLookup,
}

/// The destination of a flow after the sniffer looked at it: a socket
/// address that a domain is remembered for becomes that domain with the
/// port of the address; anything else stays.
pub open spec fn rewritten(rl: &ReverseLookup, addr: AddressView) -> AddressView {
    match addr.socket_addr() {
        Some(sa) if rl.knows(sa.ip) => AddressView::Domain(rl.domain_of(sa.ip), sa.port),
        _ => addr,
    }
}

/// The context of a flow after the sniffer looked at its destination: where
/// the destination was rewritten, the context notes the domain and the port.
pub open spec fn annotated(rl: &ReverseLookup, ctx: ContextView, addr: AddressView) -> ContextView {
    match addr.socket_addr() {
        Some(sa) if rl.knows(sa.ip) => ContextView {
            dest_domain: Some(DestDomainView { domain: rl.domain_of(sa.ip), port: sa.port }),
            ..ctx
        },
        _ => ctx,
    }
}

/// What a look at the destination does to the memory: the entry of a
/// socket address that is known becomes the most recently used one, and
/// nothing else changes.
pub open spec fn looked_up(before: &ReverseLookup, addr: AddressView, after: &ReverseLookup) -> bool {
    &&& after.records.capacity == before.records.capacity
    &&& match addr.socket_addr() {
        Some(sa) => {
            &&& after.addresses() == touched(before.addresses(), place_of(before.addresses(), sa.ip))
            &&& after.domains() == touched(before.domains(), place_of(before.addresses(), sa.ip))
        },
        None => after.addresses() == before.addresses() && after.domains() == before.domains(),
    }
}

impl DNSSnifferNet {
    pub open spec fn wf(&self) -> bool {
        self.rl.wf()
    }

    /// A sniffer around `net` that remembers nothing yet.
    pub fn new(net: NetHandle) -> (r: DNSSnifferNet)
        ensures
            r.wf(),
            r.net == net,
            r.rl.addresses().len() == 0,
            r.rl.records.capacity == REVERSE_LOOKUP_CAPACITY,
    {
        DNSSnifferNet { net, rl: ReverseLookup::new() }
    }

    /// Gives a destination its domain back, and notes the domain in the
    /// context of the flow.
    pub fn reverse_lookup(&mut self, ctx: &mut Context, addr: &Address) -> (r: Address)
        requires
            old(self).wf(),
        ensures
            final(self).wf(),
            final(self).net == old(self).net,
            r@ == rewritten(&old(self).rl, addr@),
            final(ctx)@ == annotated(&old(self).rl, old(ctx)@, addr@),
            looked_up(&old(self).rl, addr@, &final(self).rl),
    {
        match addr.socket_addr() {
            Some(sa) => match self.rl.reverse_lookup(sa.ip) {
                Some(name) => {
                    ctx.insert_dest_domain(DestDomain { domain: name.clone(), port: sa.port });
                    Address::Domain(name, sa.port)
                },
                None => addr.clone(),
            },
            None => addr.clone(),
        }
    }

    /// A connection is asked for: the destination is rewritten, and the
    /// connection is handed to the wrapped net.
    pub fn tcp_connect(&mut self, ctx: &mut Context, addr: &Address) -> (r: (NetHandle, Address))
        requires
            old(self).wf(),
        ensures
            final(self).wf(),
            final(self).net == old(self).net,
            r.0 == old(self).net,
            r.1@ == rewritten(&old(self).rl, addr@),
            final(ctx)@ == annotated(&old(self).rl, old(ctx)@, addr@),
            looked_up(&old(self).rl, addr@, &final(self).rl),
    {
        let target = self.reverse_lookup(ctx, addr);
        (self.net, target)
    }

    /// A datagram arrived on a socket of the net. What comes from port 53
    /// is read as a DNS reply; the datagram itself is passed on untouched.
    pub fn poll_recv_from(&mut self, from: SocketAddress, payload: &[u8])
        requires
            old(self).wf(),
        ensures
            final(self).wf(),
            final(self).net == old(self).net,
            final(self).rl.records.capacity == old(self).rl.records.capacity,
            match (if from.port == DNS_PORT {
                reply_of(payload@)
            } else {
                None
            }) {
                Some((name, addresses)) => (final(self).rl.addresses(), final(self).rl.domains()) == recorded_all(
                    old(self).rl.addresses(),
                    old(self).rl.domains(),
                    old(self).rl.records.capacity,
                    name,
                    addresses,
                    addresses.len(),
                ),
                None => final(self).rl.addresses() == old(self).rl.addresses() && final(self).rl.domains() == old(
                    self,
                ).rl.domains(),
            },
    {
        if from.port == DNS_PORT {
            self.rl.record_packet(payload);
        }
    }
}

/// After a reply gave `ip` for `name`, a flow to `ip` goes to `name`
/// instead, with the port that it had, and its context notes the domain.
pub proof fn lemma_sniffed_is_rewritten(rl: ReverseLookup, ctx: ContextView, ip: IpAddress, name: Seq<char>, port: u16)
    requires
        rl.knows(ip),
        rl.domain_of(ip) == name,
    ensures
        ({
            let addr = match ip {
                IpAddress::V4(a) => AddressView::V4(crate::address::SocketAddrV4 { ip: a, port }),
                IpAddress::V6(a) => AddressView::V6(crate::address::SocketAddrV6 { ip: a, port }),
            };
            &&& rewritten(&rl, addr) == AddressView::Domain(name, port)
            &&& annotated(&rl, ctx, addr).dest_domain == Some(DestDomainView { domain: name, port })
        }),
{
}

/// The address `ip` is remembered with `domain`, among the `m` entries that
/// were used last.
pub open spec fn is_recent(keys: Seq<IpAddress>, domains: Seq<Seq<char>>, ip: IpAddress, domain: Seq<char>, m: int) -> bool {
    exists|q: int| 0 <= q < keys.len() && keys.len() - m <= q && #[trigger] keys[q] == ip && domains[q] == domain
}

/// The memory stays in order when something is recorded: no address
/// twice, a domain for each address, and no more than the capacity.
pub proof fn lemma_inserted_is_in_order(
    keys: Seq<IpAddress>,
    domains: Seq<Seq<char>>,
    capacity: usize,
    ip: IpAddress,
    domain: Seq<char>,
)
    requires
        keys.len() == domains.len(),
        keys.no_duplicates(),
        keys.len() <= capacity,
    ensures
        ({
            let k = inserted(keys, capacity, place_of(keys, ip), ip);
            let d = inserted(domains, capacity, place_of(keys, ip), domain);
            k.len() == d.len() && k.no_duplicates() && k.len() <= capacity
        }),
{
    let p = place_of(keys, ip);
    lemma_place_of(keys, ip);
    let k = inserted(keys, capacity, p, ip);
    if capacity > 0 {
        if p < keys.len() {
            crate::lru::lemma_moved_to_back_is_unique(keys, p);
        } else {
            assert forall|a: int, b: int| 0 <= a < k.len() && 0 <= b < k.len() && a != b implies k[a] != k[b] by {
                let off: int = if keys.len() == capacity {
                    1
                } else {
                    0
                };
                if a < k.len() - 1 {
                    assert(k[a] == keys[a + off]);
                }
                if b < k.len() - 1 {
                    assert(k[b] == keys[b + off]);
                }
            }
        }
    }
}

/// An address that was used among the last `m` is still remembered, with
/// its domain, when another address is recorded, as long as the memory has
/// room for more than `m` addresses.
pub proof fn lemma_inserted_keeps_recent(
    keys: Seq<IpAddress>,
    domains: Seq<Seq<char>>,
    capacity: usize,
    ip: IpAddress,
    domain: Seq<char>,
    other: IpAddress,
    known: Seq<char>,
    m: int,
)
    requires
        keys.len() == domains.len(),
        keys.no_duplicates(),
        keys.len() <= capacity,
        other != ip,
        0 <= m < capacity,
        is_recent(keys, domains, other, known, m),
    ensures
        is_recent(
            inserted(keys, capacity, place_of(keys, ip), ip),
            inserted(domains, capacity, place_of(keys, ip), domain),
            other,
            known,
            m + 1,
        ),
{
    let p = place_of(keys, ip);
    lemma_place_of(keys, ip);
    let k = inserted(keys, capacity, p, ip);
    let d = inserted(domains, capacity, p, domain);
    let q = choose|q: int| 0 <= q < keys.len() && keys.len() - m <= q && #[trigger] keys[q] == other && domains[q] == known;
    if p < keys.len() {
        let at = if q < p {
            q
        } else {
            q - 1
        };
        assert(k[at] == other && d[at] == known);
    } else if keys.len() == capacity {
        assert(k[q - 1] == other && d[q - 1] == known);
    } else {
        assert(k[q] == other && d[q] == known);
    }
}

/// What was recorded stays in order.
pub proof fn lemma_recorded_is_in_order(
    keys: Seq<IpAddress>,
    domains: Seq<Seq<char>>,
    capacity: usize,
    domain: Seq<char>,
    addresses: Seq<IpAddress>,
    count: nat,
)
    requires
        keys.len() == domains.len(),
        keys.no_duplicates(),
        keys.len() <= capacity,
    ensures
        ({
            let (k, d) = recorded_all(keys, domains, capacity, domain, addresses, count);
            k.len() == d.len() && k.no_duplicates() && k.len() <= capacity
        }),
    decreases count,
{
    if count > 0 {
        lemma_recorded_is_in_order(keys, domains, capacity, domain, addresses, (count - 1) as nat);
        let (k, d) = recorded_all(keys, domains, capacity, domain, addresses, (count - 1) as nat);
        lemma_inserted_is_in_order(k, d, capacity, addresses[count - 1], domain);
    }
}

/// Of the addresses that were recorded for a domain, each of the last ones,
/// as many as the memory has room for, is remembered with the domain.
pub proof fn lemma_recorded_is_recent(
    keys: Seq<IpAddress>,
    domains: Seq<Seq<char>>,
    capacity: usize,
    domain: Seq<char>,
    addresses: Seq<IpAddress>,
    count: nat,
    i: int,
)
    requires
        keys.len() == domains.len(),
        keys.no_duplicates(),
        keys.len() <= capacity,
        0 <= i < count <= addresses.len(),
        count - i <= capacity,
    ensures
        ({
            let (k, d) = recorded_all(keys, domains, capacity, domain, addresses, count);
            is_recent(k, d, addresses[i], domain, count - i)
        }),
    decreases count,
{
    let (k, d) = recorded_all(keys, domains, capacity, domain, addresses, (count - 1) as nat);
    let ip = addresses[count - 1];
    lemma_recorded_is_in_order(keys, domains, capacity, domain, addresses, (count - 1) as nat);
    let k2 = inserted(k, capacity, place_of(k, ip), ip);
    let d2 = inserted(d, capacity, place_of(k, ip), domain);
    if addresses[i] == ip {
        crate::lru::lemma_inserted_is_held(k, d, capacity, ip, domain);
        lemma_place_of(k2, ip);
        assert(k2[k2.len() - 1] == ip && d2[k2.len() - 1] == domain);
    } else {
        lemma_recorded_is_recent(keys, domains, capacity, domain, addresses, (count - 1) as nat, i);
        lemma_inserted_keeps_recent(k, d, capacity, ip, domain, addresses[i], domain, count - 1 - i);
    }
}

/// A socket address as a destination.
pub open spec fn destination(ip: IpAddress, port: u16) -> AddressView {
    match ip {
        IpAddress::V4(a) => AddressView::V4(crate::address::SocketAddrV4 { ip: a, port }),
        IpAddress::V6(a) => AddressView::V6(crate::address::SocketAddrV6 { ip: a, port }),
    }
}

/// From the bytes of a reply to the destination of a flow: when a datagram
/// from the DNS port reads as a reply that gives addresses for a name, and
/// `after` is the sniffer that has seen it, then a flow to one of these
/// addresses goes to the name instead, with the port that it had, and its
/// context notes the name and the port. This holds of each of the last
/// addresses of the reply, as many as the memory has room for.
pub proof fn lemma_reply_rewrites_destination(
    before: DNSSnifferNet,
    payload: Seq<u8>,
    name: Seq<char>,
    addresses: Seq<IpAddress>,
    after: DNSSnifferNet,
    i: int,
    port: u16,
    ctx: ContextView,
)
    requires
        before.wf(),
        reply_of(payload) == Some((name, addresses)),
        (after.rl.addresses(), after.rl.domains()) == recorded_all(
            before.rl.addresses(),
            before.rl.domains(),
            before.rl.records.capacity,
            name,
            addresses,
            addresses.len(),
        ),
        0 <= i < addresses.len(),
        addresses.len() - i <= before.rl.records.capacity,
    ensures
        rewritten(&after.rl, destination(addresses[i], port)) == AddressView::Domain(name, port),
        annotated(&after.rl, ctx, destination(addresses[i], port)).dest_domain == Some(
            DestDomainView { domain: name, port },
        ),
{
    let keys = before.rl.addresses();
    let domains = before.rl.domains();
    let capacity = before.rl.records.capacity;
    lemma_recorded_is_in_order(keys, domains, capacity, name, addresses, addresses.len());
    lemma_recorded_is_recent(keys, domains, capacity, name, addresses, addresses.len(), i);
    let k = after.rl.addresses();
    let d = after.rl.domains();
    let ip = addresses[i];
    let q = choose|q: int| 0 <= q < k.len() && k.len() - (addresses.len() - i) <= q && #[trigger] k[q] == ip && d[q] == name;
    lemma_place_of(k, ip);
    assert(place_of(k, ip) == q);
    assert(after.rl.knows(ip));
    assert(after.rl.domain_of(ip) == name);
}

} // verus!
