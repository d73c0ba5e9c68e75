//! The server that forwards every flow to one target.

use crate::address::{Address, SocketAddress};
use crate::error::Error;
use crate::net_ref::{NetHandle, NetRef, NetRefView};
use crate::util::connect_udp::{udp_next, UdpAction, UdpEvent, UDP_BUFFER_SIZE};
use crate::visitor::{visit_both, Config, Visitor};
use vstd::prelude::*;

verus! {

/// The configuration of a forwarding server.
#[derive(Debug)]
pub struct ForwardServerConfig {
    pub bind: Address,
    pub target: Address,
    /// Whether datagrams are forwarded too.
    pub udp: bool,
    /// Where the socket towards the target is bound; it must be a socket address.
    pub udp_bind: Option<Address>,
    pub net: NetRef,
    pub listen: NetRef,
}

impl Config for ForwardServerConfig {
    open spec fn net_refs(&self) -> Seq<NetRefView> {
        self.net.net_refs() + self.listen.net_refs()
    }

    open spec fn same_settings(&self, other: &Self) -> bool {
        &&& self.bind@ == other.bind@
        &&& self.target@ == other.target@
        &&& self.udp == other.udp
        &&& self.udp_bind == other.udp_bind
    }

    proof fn lemma_same_settings(&self) {
    }

    proof fn lemma_same_settings_chain(&self, mid: &Self, last: &Self) {
    }

    fn visit<V: Visitor>(&mut self, visitor: &mut V) -> (r: Result<(), Error>) {
        visit_both(&mut self.net, &mut self.listen, visitor)
    }
}

/// A forwarding server: it listens on `bind` through `listen_net` and sends
/// every flow to `target` through `net`.
#[derive(Debug)]
pub struct ForwardServer {
    pub listen_net: NetHandle,
    pub net: NetHandle,
    pub bind: Address,
    pub udp_bind: Option<Address>,
    pub target: Address,
    pub udp: bool,
}

impl ForwardServer {
    /// The server of a resolved configuration. Fails on the first reference
    /// that is not resolved, the listening net first.
    pub fn new(cfg: ForwardServerConfig) -> (r: Result<ForwardServer, Error>)
        ensures
            match (cfg.listen@.net, cfg.net@.net) {
                (Some(listen_net), Some(net)) => r matches Ok(s) && s.listen_net == listen_net && s.net == net && s.bind
                    == cfg.bind && s.udp_bind == cfg.udp_bind && s.target == cfg.target && s.udp == cfg.udp,
                (None, _) => r matches Err(Error::NotFound(name)) && name@ == cfg.listen@.name,
                (Some(_), None) => r matches Err(Error::NotFound(name)) && name@ == cfg.net@.name,
            },
    {
        let listen_net = match cfg.listen.value() {
            Some(net) => net,
            None => {
                return Err(Error::NotFound(cfg.listen.name().clone()));
            },
        };
        let net = match cfg.net.value() {
            Some(net) => net,
            None => {
                return Err(Error::NotFound(cfg.net.name().clone()));
            },
        };
        Ok(ForwardServer { listen_net, net, bind: cfg.bind, udp_bind: cfg.udp_bind, target: cfg.target, udp: cfg.udp })
    }

    /// Where the socket towards the target is bound: where the
    /// configuration says, else at the wildcard address of the target's family.
    pub fn udp_bind_addr(&self) -> (r: Address)
        ensures
            r@ == (match self.udp_bind {
                Some(a) => a@,
                None => self.target@.any_addr_port(),
            }),
    {
        match &self.udp_bind {
            Some(a) => a.clone(),
            None => self.target.to_any_addr_port(),
        }
    }
}

/// The listening side of a forwarded datagram flow: it remembers the client
/// that sent last, names the target for what the client sends, and returns
/// what comes back to that client.
#[derive(Debug)]
pub struct ListenUdpChannel {
    pub client: Option<SocketAddress>,
    pub target: Address,
}

impl ListenUdpChannel {
    pub fn new(target: Address) -> (r: ListenUdpChannel)
        ensures
            r.client is None,
            r.target == target,
    {
        ListenUdpChannel { client: None, target }
    }

    /// A datagram arrived from `from`: the sender becomes the client, and
    /// the datagram goes to the target.
    pub fn on_datagram(&mut self, from: SocketAddress) -> (r: Address)
        ensures
            final(self).client == Some(from),
            final(self).target == old(self).target,
            r@ == old(self).target@,
    {
        self.client = Some(from);
        self.target.clone()
    }

    /// What is done with a reply: it goes to the client; while no client
    /// is known it is dropped, and nothing counts as sent.
    pub open spec fn reply_action(&self) -> ReplyAction {
        match self.client {
            Some(client) => ReplyAction::SendTo(client),
            None => ReplyAction::Sent(0),
        }
    }

    /// A reply came back.
    pub fn on_reply(&self) -> (r: ReplyAction)
        ensures
            r == self.reply_action(),
    {
        match self.client {
            Some(client) => ReplyAction::SendTo(client),
            None => ReplyAction::Sent(0),
        }
    }
}

/// How long the forwarding of datagrams rests after it failed, in milliseconds.
pub const UDP_RETRY_MILLIS: u64 = 3000;

/// What happened to the forwarding of datagrams.
#[derive(Clone, Copy, Debug, PartialEq, Eq, Structural)]
pub enum ServeUdpEvent {
    /// The server was started.
    Started,
    /// One of the two sockets could not be bound.
    BindFailed,
    /// The bridge between the two sockets ended without an error.
    BridgeEnded,
    /// The bridge between the two sockets ended with an error.
    BridgeFailed,
    /// The rest after a failure is over.
    Rested,
}

/// What the forwarding of datagrams does next.
#[derive(Clone, Copy, Debug, PartialEq, Eq, Structural)]
pub enum ServeUdpAction {
    /// Nothing is forwarded, and nothing ever will be.
    Idle,
    /// Bind the two sockets and bridge them.
    Bridge,
    /// Rest for so many milliseconds, then report `Rested`.
    RetryAfter(u64),
    /// The server ends with the error of the bind.
    Stop,
}

/// What follows an event. A server that forwards no datagrams stays idle
/// whatever happens. One that does bridges its two sockets when it is
/// started, again whenever the bridge ends, and after a failed bridge only
/// once it has rested; it ends when a socket cannot be bound.
pub open spec fn serve_udp_next(udp: bool, event: ServeUdpEvent) -> ServeUdpAction {
    if !udp {
        ServeUdpAction::Idle
    } else {
        match event {
            ServeUdpEvent::Started => ServeUdpAction::Bridge,
            ServeUdpEvent::BindFailed => ServeUdpAction::Stop,
            ServeUdpEvent::BridgeEnded => ServeUdpAction::Bridge,
            ServeUdpEvent::BridgeFailed => ServeUdpAction::RetryAfter(UDP_RETRY_MILLIS),
            ServeUdpEvent::Rested => ServeUdpAction::Bridge,
        }
    }
}

/// One step of the forwarding of datagrams: what to do after `event`.
pub fn serve_udp_step(udp: bool, event: ServeUdpEvent) -> (r: ServeUdpAction)
    ensures
        r == serve_udp_next(udp, event),
{
    if !udp {
        return ServeUdpAction::Idle;
    }
    match event {
        ServeUdpEvent::Started => ServeUdpAction::Bridge,
        ServeUdpEvent::BindFailed => ServeUdpAction::Stop,
        ServeUdpEvent::BridgeEnded => ServeUdpAction::Bridge,
        ServeUdpEvent::BridgeFailed => ServeUdpAction::RetryAfter(UDP_RETRY_MILLIS),
        ServeUdpEvent::Rested => ServeUdpAction::Bridge,
    }
}

impl ForwardServer {
    /// One step of the forwarding of datagrams of this server.
    pub fn serve_udp(&self, event: ServeUdpEvent) -> (r: ServeUdpAction)
        ensures
            r == serve_udp_next(self.udp, event),
    {
        serve_udp_step(self.udp, event)
    }
}

/// The way of a datagram and of its echo through a forwarding server. A
/// datagram that fits the buffer goes whole to the target of the server,
/// whoever sent it. When `heard` is the channel that has taken a datagram
/// of `client`, an echo that fits the buffer goes back whole, and to the
/// address of that client. A server that forwards no datagrams never binds
/// a socket, whatever happens.
pub proof fn lemma_datagram_round_trip(
    heard: ListenUdpChannel,
    client: SocketAddress,
    len: usize,
    echo: usize,
    from: SocketAddress,
    event: ServeUdpEvent,
)
    requires
        heard.client == Some(client),
        len <= UDP_BUFFER_SIZE,
        echo <= UDP_BUFFER_SIZE,
    ensures
        udp_next(UdpEvent::FromChannel { len, to: heard.target }) == (UdpAction::SendTo { len, to: heard.target }),
        udp_next(UdpEvent::FromSocket { len: echo, from }) == (UdpAction::SendBack { len: echo, from }),
        heard.reply_action() == ReplyAction::SendTo(client),
        serve_udp_next(false, event) == ServeUdpAction::Idle,
        serve_udp_next(true, ServeUdpEvent::Started) == ServeUdpAction::Bridge,
{
}

/// What to do with a reply.
#[derive(Clone, Copy, Debug, PartialEq, Eq, Structural)]
pub enum ReplyAction {
    /// Send the reply to this address.
    SendTo(SocketAddress),
    /// Report this many bytes as sent, and send nothing.
    Sent(usize),
}

} // verus!
