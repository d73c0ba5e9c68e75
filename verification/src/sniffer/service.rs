//! The addresses that DNS replies gave, each with the domain that was asked
//! for: a bounded memory that forgets what was used least recently.

use crate::address::IpAddress;
use crate::lru::{inserted, lemma_inserted_is_held, lemma_place_of, place_of, touched, BoundedCache, CacheKey};
use crate::sniffer::dns::{parse_reply, reply_of};
use vstd::prelude::*;

verus! {

/// The number of addresses that are remembered at most.
pub const REVERSE_LOOKUP_CAPACITY: usize = 1024;

impl CacheKey for IpAddress {
    fn same(&self, other: &Self) -> (r: bool) {
        *self == *other
    }
}

/// From addresses back to the domains that they were given for.
pub struct ReverseLookup {
    pub records: BoundedCache<IpAddress, String>,
}

/// The texts of a list of strings.
pub open spec fn texts_of(values: Seq<String>) -> Seq<Seq<char>> {
    Seq::new(values.len(), |i: int| values[i]@)
}

/// The addresses and domains after `count` of the addresses were recorded
/// for `domain`, one after the other.
pub open spec fn recorded_all(
    keys: Seq<IpAddress>,
    domains: Seq<Seq<char>>,
    capacity: usize,
    domain: Seq<char>,
    addresses: Seq<IpAddress>,
    count: nat,
) -> (Seq<IpAddress>, Seq<Seq<char>>)
    decreases count,
{
    if count == 0 {
        (keys, domains)
    } else {
        let (k, d) = recorded_all(keys, domains, capacity, domain, addresses, (count - 1) as nat);
        let ip = addresses[count - 1];
        (inserted(k, capacity, place_of(k, ip), ip), inserted(d, capacity, place_of(k, ip), domain))
    }
}

impl ReverseLookup {
    /// The addresses, from the least recently used to the most recently used.
    pub open spec fn addresses(&self) -> Seq<IpAddress> {
        self.records.keys()
    }

    /// The domains, in the order of the addresses.
    pub open spec fn domains(&self) -> Seq<Seq<char>> {
        texts_of(self.records.values())
    }

    pub open spec fn wf(&self) -> bool {
        self.records.wf()
    }

    /// Whether a domain is remembered for `ip`.
    pub open spec fn knows(&self, ip: IpAddress) -> bool {
        place_of(self.addresses(), ip) < self.addresses().len()
    }

    /// The domain that is remembered for an address that is known.
    pub open spec fn domain_of(&self, ip: IpAddress) -> Seq<char> {
        self.domains()[place_of(self.addresses(), ip)]
    }

    /// An empty memory.
    pub fn new() -> (r: ReverseLookup)
        ensures
            r.wf(),
            r.addresses().len() == 0,
            r.records.capacity == REVERSE_LOOKUP_CAPACITY,
    {
        ReverseLookup { records: BoundedCache::new(REVERSE_LOOKUP_CAPACITY) }
    }

    /// Remembers `domain` for `ip`.
    pub fn record(&mut self, ip: IpAddress, domain: String)
        requires
            old(self).wf(),
        ensures
            final(self).wf(),
            final(self).records.capacity == old(self).records.capacity,
            final(self).addresses() == inserted(
                old(self).addresses(),
                old(self).records.capacity,
                place_of(old(self).addresses(), ip),
                ip,
            ),
            final(self).domains() == inserted(
                old(self).domains(),
                old(self).records.capacity,
                place_of(old(self).addresses(), ip),
                domain@,
            ),
    {
        let ghost d0 = self.domains();
        let ghost v0 = self.records.values();
        let ghost p = place_of(self.addresses(), ip);
        self.records.insert(ip, domain);
        proof {
            lemma_place_of(old(self).addresses(), ip);
            assert(self.domains() =~= inserted(d0, old(self).records.capacity, p, domain@));
        }
    }

    /// Takes a datagram that came from a DNS server: if it is a reply, each
    /// address that it gives is remembered for the name that was asked for.
    /// Anything else is ignored.
    pub fn record_packet(&mut self, packet: &[u8])
        requires
            old(self).wf(),
        ensures
            final(self).wf(),
            final(self).records.capacity == old(self).records.capacity,
            match reply_of(packet@) {
                Some((name, addresses)) => (final(self).addresses(), final(self).domains()) == recorded_all(
                    old(self).addresses(),
                    old(self).domains(),
                    old(self).records.capacity,
                    name,
                    addresses,
                    addresses.len(),
                ),
                None => final(self).addresses() == old(self).addresses() && final(self).domains() == old(self).domains(),
            },
    {
        let reply = match parse_reply(packet) {
            Some(reply) => reply,
            None => {
                return ;
            },
        };
        let ghost k0 = self.addresses();
        let ghost d0 = self.domains();
        let ghost cap = self.records.capacity;
        let mut i: usize = 0;
        while i < reply.addresses.len()
            invariant
                i <= reply.addresses@.len(),
                self.wf(),
                self.records.capacity == cap,
                (self.addresses(), self.domains()) == recorded_all(k0, d0, cap, reply.name@, reply.addresses@, i as nat),
            decreases reply.addresses@.len() - i,
        {
            self.record(reply.addresses[i], reply.name.clone());
            i += 1;
        }
    }

    /// The domain that is remembered for `ip`. An address that is found
    /// becomes the most recently used one.
    pub fn reverse_lookup(&mut self, ip: IpAddress) -> (r: Option<String>)
        requires
            old(self).wf(),
        ensures
            final(self).wf(),
            final(self).records.capacity == old(self).records.capacity,
            match r {
                Some(domain) => old(self).knows(ip) && domain@ == old(self).domain_of(ip),
                None => !old(self).knows(ip),
            },
            final(self).addresses() == touched(old(self).addresses(), place_of(old(self).addresses(), ip)),
            final(self).domains() == touched(old(self).domains(), place_of(old(self).addresses(), ip)),
            forall|other: IpAddress| old(self).knows(other) ==> #[trigger] final(self).knows(other),
    {
        let ghost k0 = self.addresses();
        let ghost d0 = self.domains();
        proof {
            lemma_place_of(k0, ip);
        }
        if self.records.touch(&ip) {
            proof {
                assert(self.domains() =~= touched(d0, place_of(k0, ip)));
                let p = place_of(k0, ip);
                let k1 = self.addresses();
                assert forall|other: IpAddress| old(self).knows(other) implies #[trigger] self.knows(other) by {
                    lemma_place_of(k0, other);
                    lemma_place_of(k1, other);
                    let q = place_of(k0, other);
                    if q == p {
                        assert(k1[k1.len() - 1] == other);
                    } else {
                        let j = if q < p {
                            q
                        } else {
                            q - 1
                        };
                        assert(k1[j] == k0[q]);
                    }
                }
            }
            Some(self.records.newest().clone())
        } else {
            proof {
                assert(self.domains() =~= d0);
            }
            None
        }
    }
}

/// A domain that was just remembered for an address is the one that is
/// found for it, whatever was remembered before.
pub proof fn lemma_recorded_is_known(keys: Seq<IpAddress>, domains: Seq<Seq<char>>, capacity: usize, ip: IpAddress, domain: Seq<
    char,
>)
    requires
        capacity > 0,
        keys.len() == domains.len(),
        keys.no_duplicates(),
    ensures
        ({
            let k = inserted(keys, capacity, place_of(keys, ip), ip);
            let d = inserted(domains, capacity, place_of(keys, ip), domain);
            place_of(k, ip) < k.len() && d[place_of(k, ip)] == domain
        }),
{
    lemma_inserted_is_held(keys, domains, capacity, ip, domain);
}

} // verus!
