//! The configuration of the sniffing net.

use crate::error::Error;
use crate::net_ref::{NetRef, NetRefView};
use crate::visitor::{Config, Visitor};
use vstd::prelude::*;

verus! {

/// The configuration of the sniffing net: the net that it wraps.
#[derive(Debug)]
pub struct DNSNetConfig {
    pub net: NetRef,
}

impl Config for DNSNetConfig {
    open spec fn net_refs(&self) -> Seq<NetRefView> {
        self.net.net_refs()
    }

    open spec fn same_settings(&self, other: &Self) -> bool {
        true
    }

    proof fn lemma_same_settings(&self) {
    }

    proof fn lemma_same_settings_chain(&self, mid: &Self, last: &Self) {
    }

    fn visit<V: Visitor>(&mut self, visitor: &mut V) -> (r: Result<(), Error>) {
        self.net.visit(visitor)
    }
}

} // verus!
