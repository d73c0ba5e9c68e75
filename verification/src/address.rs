//! Destinations: socket addresses and domain names with a port.

use vstd::prelude::*;

verus! {

/// An IP address as a number: 32 bits for version 4, 128 bits for version 6,
/// the first octet in the highest bits.
#[derive(Clone, Copy, Debug, PartialEq, Eq, Structural)]
pub enum IpAddress {
    V4(u32),
    V6(u128),
}

impl View for IpAddress {
    type V = IpAddress;

    open spec fn view(&self) -> IpAddress {
        *self
    }
}

/// An IP address and a port.
#[derive(Clone, Copy, Debug, PartialEq, Eq, Structural)]
pub struct SocketAddress {
    pub ip: IpAddress,
    pub port: u16,
}

/// A version 4 address and a port.
#[derive(Clone, Copy, Debug, PartialEq, Eq, Structural)]
pub struct SocketAddrV4 {
    pub ip: u32,
    pub port: u16,
}

/// A version 6 address and a port.
#[derive(Clone, Copy, Debug, PartialEq, Eq, Structural)]
pub struct SocketAddrV6 {
    pub ip: u128,
    pub port: u16,
}

/// Where a flow goes.
#[derive(Debug)]
pub enum Address {
    V4(SocketAddrV4),
    V6(SocketAddrV6),
    Domain(String, u16),
}

/// What an address says, with the domain as a sequence of characters.
pub enum AddressView {
    V4(SocketAddrV4),
    V6(SocketAddrV6),
    Domain(Seq<char>, u16),
}

impl View for Address {
    type V = AddressView;

    open spec fn view(&self) -> AddressView {
        match self {
            Address::V4(a) => AddressView::V4(*a),
            Address::V6(a) => AddressView::V6(*a),
            Address::Domain(d, p) => AddressView::Domain(d@, *p),
        }
    }
}

impl AddressView {
    /// The port of the address.
    pub open spec fn port(self) -> u16 {
        match self {
            AddressView::V4(a) => a.port,
            AddressView::V6(a) => a.port,
            AddressView::Domain(_, p) => p,
        }
    }

    /// The socket address, where the address is one.
    pub open spec fn socket_addr(self) -> Option<SocketAddress> {
        match self {
            AddressView::V4(a) => Some(SocketAddress { ip: IpAddress::V4(a.ip), port: a.port }),
            AddressView::V6(a) => Some(SocketAddress { ip: IpAddress::V6(a.ip), port: a.port }),
            AddressView::Domain(_, _) => None,
        }
    }

    /// The wildcard address of the same family with port 0: where to bind a
    /// socket that is to reach this address. A domain binds in version 4.
    pub open spec fn any_addr_port(self) -> AddressView {
        match self {
            AddressView::V6(_) => AddressView::V6(SocketAddrV6 { ip: 0, port: 0 }),
            _ => AddressView::V4(SocketAddrV4 { ip: 0, port: 0 }),
        }
    }
}

impl Clone for Address {
    fn clone(&self) -> (r: Address)
        ensures
            r@ == self@,
    {
        match self {
            Address::V4(a) => Address::V4(*a),
            Address::V6(a) => Address::V6(*a),
            Address::Domain(d, p) => Address::Domain(d.clone(), *p),
        }
    }
}

impl Address {
    /// The address of a socket, as what it says.
    pub open spec fn from_socket_addr_spec(addr: SocketAddress) -> AddressView {
        match addr.ip {
            IpAddress::V4(ip) => AddressView::V4(SocketAddrV4 { ip, port: addr.port }),
            IpAddress::V6(ip) => AddressView::V6(SocketAddrV6 { ip, port: addr.port }),
        }
    }

    /// The address of a socket.
    pub fn from_socket_addr(addr: SocketAddress) -> (r: Address)
        ensures
            r@.socket_addr() == Some(addr),
            r@ == Address::from_socket_addr_spec(addr),
    {
        match addr.ip {
            IpAddress::V4(ip) => Address::V4(SocketAddrV4 { ip, port: addr.port }),
            IpAddress::V6(ip) => Address::V6(SocketAddrV6 { ip, port: addr.port }),
        }
    }

    /// The port of the address.
    pub fn port(&self) -> (r: u16)
        ensures
            r == self@.port(),
    {
        match self {
            Address::V4(a) => a.port,
            Address::V6(a) => a.port,
            Address::Domain(_, p) => *p,
        }
    }

    /// The socket address, where the address is one.
    pub fn socket_addr(&self) -> (r: Option<SocketAddress>)
        ensures
            r == self@.socket_addr(),
    {
        match self {
            Address::V4(a) => Some(SocketAddress { ip: IpAddress::V4(a.ip), port: a.port }),
            Address::V6(a) => Some(SocketAddress { ip: IpAddress::V6(a.ip), port: a.port }),
            Address::Domain(_, _) => None,
        }
    }

    /// The wildcard address of the same family, with port 0.
    pub fn to_any_addr_port(&self) -> (r: Address)
        ensures
            r@ == self@.any_addr_port(),
    {
        match self {
            Address::V6(_) => Address::V6(SocketAddrV6 { ip: 0, port: 0 }),
            _ => Address::V4(SocketAddrV4 { ip: 0, port: 0 }),
        }
    }

    /// Whether two addresses say the same.
    pub fn same(&self, other: &Address) -> (r: bool)
        ensures
            r == (self@ == other@),
    {
        match (self, other) {
            (Address::V4(a), Address::V4(b)) => a.ip == b.ip && a.port == b.port,
            (Address::V6(a), Address::V6(b)) => a.ip == b.ip && a.port == b.port,
            (Address::Domain(d, p), Address::Domain(e, q)) => *d == *e && *p == *q,
            _ => false,
        }
    }
}

/// The version 4 address that a version 6 address maps, where it is of the
/// form `::ffff:a.b.c.d`.
pub open spec fn ipv4_mapped(ip: u128) -> Option<u32> {
    if ip >> 32 == 0xffff {
        Some((ip & 0xffff_ffff) as u32)
    } else {
        None
    }
}

/// The version 4 address inside a mapped version 6 address.
pub fn to_ipv4_mapped(ip: u128) -> (r: Option<u32>)
    ensures
        r == ipv4_mapped(ip),
{
    if ip >> 32 == 0xffff {
        let low: u128 = ip & 0xffff_ffff;
        assert(low <= 0xffff_ffff) by (bit_vector)
            requires
                low == ip & 0xffff_ffff,
        ;
        Some(low as u32)
    } else {
        None
    }
}

/// A mapped version 6 socket address as the version 4 address that it maps;
/// any other address as it is.
pub fn resolve_mapped_socket_addr(addr: SocketAddress) -> (r: SocketAddress)
    ensures
        r == (match addr.ip {
            IpAddress::V6(ip) if ipv4_mapped(ip) is Some => SocketAddress {
                ip: IpAddress::V4(ipv4_mapped(ip)->0),
                port: addr.port,
            },
            _ => addr,
        }),
{
    if let IpAddress::V6(ip) = addr.ip {
        if let Some(v4) = to_ipv4_mapped(ip) {
            return SocketAddress { ip: IpAddress::V4(v4), port: addr.port };
        }
    }
    addr
}

} // verus!
