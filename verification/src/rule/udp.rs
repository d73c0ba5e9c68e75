//! The datagram socket of the rule net: the destination of each datagram
//! selects the net that it goes out through, and each such net gets one
//! socket that is used again while datagrams keep going to it.

use crate::address::{Address, SocketAddress};
use crate::context::Context;
use crate::error::{Error, IoError, IoErrorKind};
use crate::lru::CacheKey;
use crate::net_ref::NetHandle;
use crate::rule::matcher::match_key;
use crate::rule::rule_net::{first_matching, Rule};
use crate::util::forward_udp::{nat_step, NatDecision, NatTable, NAT_CAPACITY, NAT_EXPIRY_MS};
use vstd::prelude::*;

verus! {

impl CacheKey for NetHandle {
    fn same(&self, other: &Self) -> (r: bool) {
        self.id == other.id
    }
}

/// Where the socket stands.
#[derive(Clone, Copy, Debug, PartialEq, Eq, Structural)]
pub enum State {
    /// Nothing was sent yet.
    Idle,
    /// The first datagram, to `first`, waits for its socket to be bound.
    Binding { first: SocketAddress },
    /// The socket works.
    Binded,
}

/// The datagram socket that a rule net hands out.
pub struct UdpRuleSocket {
    pub state: State,
    pub context: Context,
    pub bind_addr: Address,
    pub nat: NatTable<NetHandle>,
}

/// What to do with a datagram.
#[derive(Debug)]
pub enum SendAction {
    /// Bind a socket through the net `target` at `bind_addr`, keep it under
    /// the number `socket`, and send the datagram through it.
    Bind { target: NetHandle, socket: u64, bind_addr: Address, dropped: Vec<u64> },
    /// Send the datagram through the socket `socket`.
    Forward { socket: u64, dropped: Vec<u64> },
    /// Drop the datagram: no socket can be had for it.
    Lose { dropped: Vec<u64> },
}

/// What a poll of the socket comes to.
#[derive(Clone, Copy, Debug, PartialEq, Eq, Structural)]
pub enum PollAction {
    /// Ask the bound sockets.
    Delegate,
    /// Done, with nothing to do.
    Ready,
    /// Wait until the first socket is bound.
    Wait,
}

/// The error of a socket that is asked too early.
pub open spec fn is_not_ready(e: Error) -> bool {
    e matches Error::IO(io) && io.kind == IoErrorKind::Other && io.message@ == "rule udp not ready"@
}

/// The error of a socket that is asked too early.
pub fn not_ready() -> (r: Error)
    ensures
        is_not_ready(r),
{
    Error::IO(IoError { kind: IoErrorKind::Other, message: "rule udp not ready".to_string() })
}

impl UdpRuleSocket {
    pub open spec fn wf(&self) -> bool {
        self.nat.wf()
    }

    /// A socket that has sent nothing yet.
    pub fn new(context: Context, bind_addr: Address) -> (r: UdpRuleSocket)
        ensures
            r.wf(),
            r.state == State::Idle,
            r.context == context,
            r.bind_addr == bind_addr,
            r.nat.entries@.len() == 0,
    {
        UdpRuleSocket { state: State::Idle, context, bind_addr, nat: NatTable::new(NAT_CAPACITY, NAT_EXPIRY_MS) }
    }

    /// A datagram for `dst` is to be sent at `now`.
    ///
    /// While the first socket is being bound nothing else is sent: the call
    /// fails with "not ready". Otherwise the rules select the net for the
    /// destination; where none matches, the call fails and nothing changes.
    /// The net's socket is used if there is one that is still good; else one
    /// is to be bound, and if this is the first socket at all, the socket
    /// counts as binding until `bound` is called.
    pub fn start_send(&mut self, rule: &mut Rule, dst: SocketAddress, now: u64) -> (r: Result<SendAction, Error>)
        requires
            old(self).wf(),
            old(rule).wf(),
        ensures
            final(self).wf(),
            final(rule).wf(),
            final(rule).rule@ == old(rule).rule@,
            final(self).context == old(self).context,
            final(self).bind_addr == old(self).bind_addr,
            match old(self).state {
                State::Binding { .. } => {
                    &&& r matches Err(e)
                    &&& is_not_ready(e)
                    &&& final(self).state == old(self).state
                    &&& final(self).nat == old(self).nat
                },
                _ => {
                    let dest = Address::from_socket_addr_spec(dst);
                    let i = first_matching(old(rule).rule@, match_key(old(self).context@, dest));
                    if i >= old(rule).rule@.len() {
                        &&& r matches Err(Error::NotFound(_))
                        &&& final(self).state == old(self).state
                        &&& final(self).nat == old(self).nat
                    } else {
                        let target = old(rule).rule@[i].target;
                        &&& r matches Ok(action)
                        &&& nat_step(&old(self).nat, target, now, &final(self).nat, decision_of(action))
                        &&& action matches SendAction::Bind { target: t, bind_addr: b, .. } ==> t == target && b@
                            == old(self).bind_addr@
                        &&& final(self).state == (if action is Bind && old(self).state == State::Idle {
                            State::Binding { first: dst }
                        } else {
                            old(self).state
                        })
                    }
                },
            },
    {
        if let State::Binding { .. } = self.state {
            return Err(not_ready());
        }
        let dest = Address::from_socket_addr(dst);
        let selected = match rule.get_rule(&self.context, &dest) {
            Ok(s) => s,
            Err(e) => {
                return Err(e);
            },
        };
        let NatDecision { connection, created, dropped } = self.nat.on_packet(selected.target, now);
        match connection {
            Some(socket) => {
                if created {
                    if let State::Idle = self.state {
                        self.state = State::Binding { first: dst };
                    }
                    Ok(SendAction::Bind { target: selected.target, socket, bind_addr: self.bind_addr.clone(), dropped })
                } else {
                    Ok(SendAction::Forward { socket, dropped })
                }
            },
            None => Ok(SendAction::Lose { dropped }),
        }
    }

    /// The first socket was bound, or could not be bound: the socket works
    /// from now on, or is back where it started.
    pub fn bound(&mut self, ok: bool)
        ensures
            final(self).context == old(self).context,
            final(self).bind_addr == old(self).bind_addr,
            final(self).nat == old(self).nat,
            final(self).state == (match old(self).state {
                State::Binding { .. } => if ok {
                    State::Binded
                } else {
                    State::Idle
                },
                s => s,
            }),
    {
        if let State::Binding { .. } = self.state {
            self.state = if ok {
                State::Binded
            } else {
                State::Idle
            };
        }
    }

    /// Whether the socket can take a datagram.
    pub fn poll_ready(&self) -> (r: PollAction)
        ensures
            r == (match self.state {
                State::Binded => PollAction::Delegate,
                State::Idle => PollAction::Ready,
                State::Binding { .. } => PollAction::Wait,
            }),
    {
        match self.state {
            State::Binded => PollAction::Delegate,
            State::Idle => PollAction::Ready,
            State::Binding { .. } => PollAction::Wait,
        }
    }

    /// What is sent is flushed by the bound sockets; before there is one,
    /// a flush fails with "not ready".
    pub fn poll_flush(&self) -> (r: Result<PollAction, Error>)
        ensures
            match self.state {
                State::Binded => r == Ok::<PollAction, Error>(PollAction::Delegate),
                _ => r matches Err(e) && is_not_ready(e),
            },
    {
        match self.state {
            State::Binded => Ok(PollAction::Delegate),
            _ => Err(not_ready()),
        }
    }

    /// Closing goes to the bound sockets; before there is one, there is
    /// nothing to close.
    pub fn poll_close(&self) -> (r: PollAction)
        ensures
            r == (match self.state {
                State::Binded => PollAction::Delegate,
                _ => PollAction::Ready,
            }),
    {
        match self.state {
            State::Binded => PollAction::Delegate,
            _ => PollAction::Ready,
        }
    }

    /// Receiving goes to the bound sockets; before there is one, the
    /// receiver waits.
    pub fn poll_next(&self) -> (r: PollAction)
        ensures
            r == (match self.state {
                State::Binded => PollAction::Delegate,
                _ => PollAction::Wait,
            }),
    {
        match self.state {
            State::Binded => PollAction::Delegate,
            _ => PollAction::Wait,
        }
    }

    /// The socket has no address of its own.
    pub fn local_addr(&self) -> (r: Result<SocketAddress, Error>)
        ensures
            r matches Err(Error::NotImplemented),
    {
        Err(Error::NotImplemented)
    }
}

/// What an action says about the table of sockets.
pub open spec fn decision_of(action: SendAction) -> NatDecision {
    match action {
        SendAction::Bind { socket, dropped, .. } => NatDecision { connection: Some(socket), created: true, dropped },
        SendAction::Forward { socket, dropped } => NatDecision { connection: Some(socket), created: false, dropped },
        SendAction::Lose { dropped } => NatDecision { connection: None, created: false, dropped },
    }
}

} // verus!
