//! The configuration of the net that opens sockets of the operating system.

use crate::address::IpAddress;
use crate::error::Error;
use crate::net_ref::NetRefView;
use crate::visitor::{Config, Visitor};
use vstd::prelude::*;

verus! {

/// How the local net sets up its sockets.
#[derive(Clone, Debug)]
pub struct LocalNetConfig {
    /// The time to live of outgoing packets.
    pub ttl: Option<u32>,
    /// Whether small writes are sent at once; they are, unless told otherwise.
    pub nodelay: Option<bool>,
    /// The mark that outgoing packets carry.
    pub mark: Option<u32>,
    /// The device that sockets are bound to.
    pub bind_device: Option<String>,
    /// The address that sockets are bound to.
    pub bind_addr: Option<IpAddress>,
    /// How long a connect may take, in seconds.
    pub connect_timeout: Option<u64>,
}

impl Default for LocalNetConfig {
    fn default() -> (r: LocalNetConfig)
        ensures
            r.ttl is None,
            r.nodelay is None,
            r.mark is None,
            r.bind_device is None,
            r.bind_addr is None,
            r.connect_timeout is None,
    {
        LocalNetConfig {
            ttl: None,
            nodelay: None,
            mark: None,
            bind_device: None,
            bind_addr: None,
            connect_timeout: None,
        }
    }
}

impl LocalNetConfig {
    /// Whether small writes are sent at once.
    pub fn nodelay_or_default(&self) -> (r: bool)
        ensures
            r == (match self.nodelay {
                Some(v) => v,
                None => true,
            }),
    {
        match self.nodelay {
            Some(v) => v,
            None => true,
        }
    }
}

/// The net that opens sockets of the operating system.
#[derive(Clone, Debug)]
pub struct LocalNet(pub LocalNetConfig);

/// How an attempt on one of the addresses of a destination ended.
#[derive(Debug)]
pub enum Attempt {
    /// The socket is there.
    Done,
    /// The attempt failed with this error.
    Failed(Error),
}

/// What to do after an attempt.
#[derive(Debug)]
pub enum NextStep {
    /// Take the socket.
    Finish,
    /// Try the next address.
    TryNext,
    /// Give up with this error.
    GiveUp(Error),
}

/// The attempts on the addresses of one destination, one after the other.
#[derive(Debug)]
pub struct Attempts {
    /// The addresses that are left to try.
    pub left: usize,
    /// The error of the last attempt that failed.
    pub last_err: Option<Error>,
}

/// The error of a destination that resolved to no address.
pub open spec fn is_unresolved(e: Error) -> bool {
    e matches Error::IO(io) && io.kind == crate::error::IoErrorKind::InvalidInput && io.message@
        == "could not resolve to any address"@
}

impl LocalNet {
    pub fn new(config: LocalNetConfig) -> (r: LocalNet)
        ensures
            r.0 == config,
    {
        LocalNet(config)
    }

    /// The attempts on a destination that resolved to `addresses` addresses.
    pub fn attempts(&self, addresses: usize) -> (r: Attempts)
        ensures
            r.left == addresses,
            r.last_err is None,
    {
        Attempts { left: addresses, last_err: None }
    }
}

impl Attempts {
    /// What to do first: try an address if there is one, else give up,
    /// since the destination resolved to nothing.
    pub fn begin(&self) -> (r: NextStep)
        ensures
            match r {
                NextStep::TryNext => self.left > 0,
                NextStep::GiveUp(e) => self.left == 0 && is_unresolved(e),
                NextStep::Finish => false,
            },
    {
        if self.left > 0 {
            NextStep::TryNext
        } else {
            NextStep::GiveUp(
                Error::IO(
                    crate::error::IoError {
                        kind: crate::error::IoErrorKind::InvalidInput,
                        message: "could not resolve to any address".to_string(),
                    },
                ),
            )
        }
    }

    /// An attempt ended. The first socket that is there is taken. After a
    /// failure the next address is tried; behind the last address the
    /// error of the last attempt is the result.
    pub fn next(&mut self, attempt: Attempt) -> (r: NextStep)
        requires
            old(self).left > 0,
        ensures
            final(self).left == old(self).left - 1,
            match attempt {
                Attempt::Done => r is Finish && final(self).last_err == old(self).last_err,
                Attempt::Failed(e) => if old(self).left > 1 {
                    r is TryNext && final(self).last_err == Some(e)
                } else {
                    r == NextStep::GiveUp(e) && final(self).last_err is None
                },
            },
    {
        self.left = self.left - 1;
        match attempt {
            Attempt::Done => NextStep::Finish,
            Attempt::Failed(e) => {
                if self.left > 0 {
                    self.last_err = Some(e);
                    NextStep::TryNext
                } else {
                    self.last_err = None;
                    NextStep::GiveUp(e)
                }
            },
        }
    }
}

impl Config for LocalNetConfig {
    open spec fn net_refs(&self) -> Seq<NetRefView> {
        Seq::empty()
    }

    open spec fn same_settings(&self, other: &Self) -> bool {
        self == other
    }

    proof fn lemma_same_settings(&self) {
    }

    proof fn lemma_same_settings_chain(&self, mid: &Self, last: &Self) {
    }

    fn visit<V: Visitor>(&mut self, visitor: &mut V) -> (r: Result<(), Error>) {
        Ok(())
    }
}

} // verus!
