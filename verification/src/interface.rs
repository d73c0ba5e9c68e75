//! What a net and a server offer, as far as the router itself reads it.

use crate::address::{Address, SocketAddress};
use crate::context::Context;
use crate::error::Error;
use vstd::prelude::*;

verus! {

/// A connection that a net opened, by its number.
#[derive(Clone, Copy, Debug, PartialEq, Eq, Structural)]
pub struct TcpStream(pub usize);

/// A listener that a net bound, by its number.
#[derive(Clone, Copy, Debug, PartialEq, Eq, Structural)]
pub struct TcpListener(pub usize);

/// A datagram socket that a net bound, by its number.
#[derive(Clone, Copy, Debug, PartialEq, Eq, Structural)]
pub struct UdpSocket(pub usize);

/// Turning a thing into the shape in which the router keeps it.
pub trait IntoDyn<DynType> {
    fn into_dyn(self) -> DynType where Self: Sized;
}

/// A net: it connects, binds and looks up. A net that does not offer an
/// operation answers `NotImplemented`.
pub trait INet {
    fn tcp_connect(&self, ctx: &mut Context, addr: &Address) -> Result<TcpStream, Error>;

    fn tcp_bind(&self, ctx: &mut Context, addr: &Address) -> Result<TcpListener, Error>;

    fn udp_bind(&self, ctx: &mut Context, addr: &Address) -> Result<UdpSocket, Error>;

    fn lookup_host(&self, addr: &Address) -> Result<Vec<SocketAddress>, Error>;
}

/// A server: it runs until it fails or is dropped.
pub trait IServer {
    fn start(&self) -> Result<(), Error>;
}

/// A datagram socket that can be tied to one peer.
pub trait UdpSocketExt: Sized {
    /// The socket, tied to the peer `peer`: the socket itself, unchanged,
    /// together with the peer that its datagrams go to and come from.
    fn ext(self, peer: SocketAddress) -> (r: (Self, SocketAddress))
        ensures
            r.0 == self,
            r.1 == peer,
    {
        (self, peer)
    }
}

/// A net that offers all three kinds of sockets.
pub trait ProxyNet: INet {
}

/// The source of the datagrams of many clients: it gives each datagram
/// with where it came from and where it was meant to go, and takes the
/// replies with both addresses swapped.
pub trait RawUdpSource {
}

/// A net that offers nothing: every operation answers `NotImplemented`.
#[derive(Clone, Copy, Debug)]
pub struct NotImplementedNet;

impl INet for NotImplementedNet {
    fn tcp_connect(&self, ctx: &mut Context, addr: &Address) -> (r: Result<TcpStream, Error>)
        ensures
            r matches Err(Error::NotImplemented),
            *final(ctx) == *old(ctx),
    {
        Err(Error::NotImplemented)
    }

    fn tcp_bind(&self, ctx: &mut Context, addr: &Address) -> (r: Result<TcpListener, Error>)
        ensures
            r matches Err(Error::NotImplemented),
            *final(ctx) == *old(ctx),
    {
        Err(Error::NotImplemented)
    }

    fn udp_bind(&self, ctx: &mut Context, addr: &Address) -> (r: Result<UdpSocket, Error>)
        ensures
            r matches Err(Error::NotImplemented),
            *final(ctx) == *old(ctx),
    {
        Err(Error::NotImplemented)
    }

    fn lookup_host(&self, addr: &Address) -> (r: Result<Vec<SocketAddress>, Error>)
        ensures
            r matches Err(Error::NotImplemented),
    {
        Err(Error::NotImplemented)
    }
}

impl ProxyNet for NotImplementedNet {
}

/// Whether an error only says that a net lacks an operation. Who asked for
/// a connection need not mind that datagrams are not offered.
pub fn is_not_implemented(e: &Error) -> (r: bool)
    ensures
        r == (e is NotImplemented),
{
    matches!(e, Error::NotImplemented)
}

} // verus!
