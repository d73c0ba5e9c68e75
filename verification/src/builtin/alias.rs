//! A net that is another net under a second name.

use crate::error::Error;
use crate::net_ref::{NetHandle, NetRef, NetRefView};
use crate::visitor::{Config, Visitor};
use vstd::prelude::*;

verus! {

/// A net that hands every operation to the net it stands for.
#[derive(Clone, Copy, Debug, PartialEq, Eq, Structural)]
pub struct AliasNet(pub NetHandle);

impl AliasNet {
    pub fn new(net: NetHandle) -> (r: AliasNet)
        ensures
            r.0 == net,
    {
        AliasNet(net)
    }

    /// The net that every operation goes to.
    pub fn net(&self) -> (r: NetHandle)
        ensures
            r == self.0,
    {
        self.0
    }

    /// The alias of the net that a resolved configuration names.
    pub fn build(config: AliasNetConfig) -> (r: Result<AliasNet, Error>)
        ensures
            match config.net@.net {
                Some(net) => r == Ok::<AliasNet, Error>(AliasNet(net)),
                None => r matches Err(Error::NotFound(name)) && name@ == config.net@.name,
            },
    {
        match config.net.value() {
            Some(net) => Ok(AliasNet::new(net)),
            None => Err(Error::NotFound(config.net.name().clone())),
        }
    }
}

/// The configuration of an alias: the net that it stands for.
#[derive(Debug)]
pub struct AliasNetConfig {
    pub net: NetRef,
}

impl Config for AliasNetConfig {
    open spec fn net_refs(&self) -> Seq<NetRefView> {
        self.net.net_refs()
    }

    open spec fn same_settings(&self, other: &Self) -> bool {
        true
    }

    proof fn lemma_same_settings(&self) {
    }

    proof fn lemma_same_settings_chain(&self, mid: &Self, last: &Self) {
    }

    fn visit<V: Visitor>(&mut self, visitor: &mut V) -> (r: Result<(), Error>) {
        self.net.visit(visitor)
    }
}

} // verus!
