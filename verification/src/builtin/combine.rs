//! A net that takes each kind of operation from a net of its own.

use crate::error::Error;
use crate::net_ref::{NetHandle, NetRef, NetRefView};
use crate::visitor::{lemma_visit_seq, visit_both, Config, Visitor};
use vstd::prelude::*;

verus! {

/// The operations that a net offers.
#[derive(Clone, Copy, Debug, PartialEq, Eq, Structural)]
pub enum NetOperation {
    TcpConnect,
    TcpBind,
    UdpBind,
    LookupHost,
}

/// A net that hands each kind of operation to the net configured for it.
#[derive(Clone, Copy, Debug, PartialEq, Eq, Structural)]
pub struct CombineNet {
    pub tcp_connect: NetHandle,
    pub tcp_bind: NetHandle,
    pub udp_bind: NetHandle,
}

impl CombineNet {
    /// The net that serves `operation`; a host lookup is served by none.
    pub open spec fn route_of(&self, operation: NetOperation) -> Option<NetHandle> {
        match operation {
            NetOperation::TcpConnect => Some(self.tcp_connect),
            NetOperation::TcpBind => Some(self.tcp_bind),
            NetOperation::UdpBind => Some(self.udp_bind),
            NetOperation::LookupHost => None,
        }
    }

    /// The net that `operation` is handed to, or `NotImplemented`.
    pub fn route(&self, operation: NetOperation) -> (r: Result<NetHandle, Error>)
        ensures
            match self.route_of(operation) {
                Some(net) => r == Ok::<NetHandle, Error>(net),
                None => r matches Err(Error::NotImplemented),
            },
    {
        match operation {
            NetOperation::TcpConnect => Ok(self.tcp_connect),
            NetOperation::TcpBind => Ok(self.tcp_bind),
            NetOperation::UdpBind => Ok(self.udp_bind),
            NetOperation::LookupHost => Err(Error::NotImplemented),
        }
    }

    /// The net of a resolved configuration. Fails on the first reference
    /// that is not resolved.
    pub fn build(config: CombineNetConfig) -> (r: Result<CombineNet, Error>)
        ensures
            match (config.tcp_connect@.net, config.tcp_bind@.net, config.udp_bind@.net) {
                (Some(a), Some(b), Some(c)) => r == Ok::<CombineNet, Error>(
                    CombineNet { tcp_connect: a, tcp_bind: b, udp_bind: c },
                ),
                (None, _, _) => r matches Err(Error::NotFound(name)) && name@ == config.tcp_connect@.name,
                (Some(_), None, _) => r matches Err(Error::NotFound(name)) && name@ == config.tcp_bind@.name,
                (Some(_), Some(_), None) => r matches Err(Error::NotFound(name)) && name@ == config.udp_bind@.name,
            },
    {
        let tcp_connect = match config.tcp_connect.value() {
            Some(net) => net,
            None => {
                return Err(Error::NotFound(config.tcp_connect.name().clone()));
            },
        };
        let tcp_bind = match config.tcp_bind.value() {
            Some(net) => net,
            None => {
                return Err(Error::NotFound(config.tcp_bind.name().clone()));
            },
        };
        let udp_bind = match config.udp_bind.value() {
            Some(net) => net,
            None => {
                return Err(Error::NotFound(config.udp_bind.name().clone()));
            },
        };
        Ok(CombineNet { tcp_connect, tcp_bind, udp_bind })
    }
}

/// The configuration of a combined net: one net for each kind of operation.
#[derive(Debug)]
pub struct CombineNetConfig {
    pub tcp_connect: NetRef,
    pub tcp_bind: NetRef,
    pub udp_bind: NetRef,
}

impl Config for CombineNetConfig {
    open spec fn net_refs(&self) -> Seq<NetRefView> {
        seq![self.tcp_connect@, self.tcp_bind@, self.udp_bind@]
    }

    open spec fn same_settings(&self, other: &Self) -> bool {
        true
    }

    proof fn lemma_same_settings(&self) {
    }

    proof fn lemma_same_settings_chain(&self, mid: &Self, last: &Self) {
    }

    fn visit<V: Visitor>(&mut self, visitor: &mut V) -> (r: Result<(), Error>) {
        let ghost s0 = visitor.state();
        let ghost a = self.tcp_connect.net_refs() + self.tcp_bind.net_refs();
        let ghost c = self.udp_bind.net_refs();
        assert(a + c =~= self.net_refs());
        let r1 = visit_both(&mut self.tcp_connect, &mut self.tcp_bind, visitor);
        let ghost g1 = r1;
        let ghost s1 = visitor.state();
        let ghost a1 = self.tcp_connect.net_refs() + self.tcp_bind.net_refs();
        match r1 {
            Ok(()) => {
                let r2 = self.udp_bind.visit(visitor);
                proof {
                    lemma_visit_seq::<V>(s0, a, c, s1, a1, g1, visitor.state(), self.udp_bind.net_refs(), r2);
                    assert(a1 + self.udp_bind.net_refs() =~= self.net_refs());
                }
                r2
            },
            Err(e) => {
                proof {
                    lemma_visit_seq::<V>(s0, a, c, s1, a1, g1, s1, c, g1);
                    assert(a1 + c =~= self.net_refs());
                }
                Err(e)
            },
        }
    }
}

} // verus!
