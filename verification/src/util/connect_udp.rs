//! Joining the datagram channel of a server with a socket: what the
//! channel gives goes out through the socket, what the socket receives goes
//! back into the channel.

use crate::address::{Address, SocketAddress};
use crate::error::Error;
use vstd::prelude::*;

verus! {

/// The size of the buffer for one datagram.
pub const UDP_BUFFER_SIZE: usize = 65536;

/// What happened on the channel or on the socket.
#[derive(Debug)]
pub enum UdpEvent {
    /// The channel gave a datagram of this size for this destination.
    FromChannel { len: usize, to: Address },
    /// The socket received a datagram of this size from this address.
    FromSocket { len: usize, from: SocketAddress },
    /// The channel has nothing more to give.
    ChannelEnded,
    /// The socket has nothing more to receive.
    SocketEnded,
    /// Sending a datagram on failed.
    SendFailed(Error),
}

/// What to do next.
#[derive(Debug)]
pub enum UdpAction {
    /// Send the first `len` bytes of the buffer through the socket to `to`.
    SendTo { len: usize, to: Address },
    /// Give the first `len` bytes of the buffer to the channel, as coming from `from`.
    SendBack { len: usize, from: SocketAddress },
    /// Leave, with this result.
    Finish(Result<(), Error>),
}

/// The size of a datagram as far as the buffer holds it.
pub open spec fn clipped(len: usize) -> usize {
    if len <= UDP_BUFFER_SIZE {
        len
    } else {
        UDP_BUFFER_SIZE
    }
}

/// What follows from an event: a datagram is passed on to the other side;
/// when either side ends, the whole ends well; when a send fails, the whole
/// ends with that error.
pub open spec fn udp_next(event: UdpEvent) -> UdpAction {
    match event {
        UdpEvent::FromChannel { len, to } => UdpAction::SendTo { len: clipped(len), to },
        UdpEvent::FromSocket { len, from } => UdpAction::SendBack { len: clipped(len), from },
        UdpEvent::ChannelEnded => UdpAction::Finish(Ok(())),
        UdpEvent::SocketEnded => UdpAction::Finish(Ok(())),
        UdpEvent::SendFailed(e) => UdpAction::Finish(Err(e)),
    }
}

/// What follows from an event.
pub fn connect_udp(event: UdpEvent) -> (r: UdpAction)
    ensures
        r == udp_next(event),
{
    match event {
        UdpEvent::FromChannel { len, to } => UdpAction::SendTo { len: clip(len), to },
        UdpEvent::FromSocket { len, from } => UdpAction::SendBack { len: clip(len), from },
        UdpEvent::ChannelEnded => UdpAction::Finish(Ok(())),
        UdpEvent::SocketEnded => UdpAction::Finish(Ok(())),
        UdpEvent::SendFailed(e) => UdpAction::Finish(Err(e)),
    }
}

/// The size of a datagram as far as the buffer holds it.
pub fn clip(len: usize) -> (r: usize)
    ensures
        r == clipped(len),
{
    if len <= UDP_BUFFER_SIZE {
        len
    } else {
        UDP_BUFFER_SIZE
    }
}

} // verus!
