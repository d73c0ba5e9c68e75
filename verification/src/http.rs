//! The configurations of the HTTP proxy client and server.

use crate::address::Address;
use crate::error::Error;
use crate::net_ref::{NetRef, NetRefView};
use crate::visitor::{visit_both, Config, Visitor};
use vstd::prelude::*;

verus! {

/// The configuration of the HTTP proxy client: the proxy, and the net
/// through which it is reached.
#[derive(Debug)]
pub struct HttpNetConfig {
    pub server: Address,
    pub net: NetRef,
}

impl Config for HttpNetConfig {
    open spec fn net_refs(&self) -> Seq<NetRefView> {
        self.net.net_refs()
    }

    open spec fn same_settings(&self, other: &Self) -> bool {
        self.server@ == other.server@
    }

    proof fn lemma_same_settings(&self) {
    }

    proof fn lemma_same_settings_chain(&self, mid: &Self, last: &Self) {
    }

    fn visit<V: Visitor>(&mut self, visitor: &mut V) -> (r: Result<(), Error>) {
        self.net.visit(visitor)
    }
}

/// The configuration of the HTTP proxy server: where it listens, the net
/// that its flows go to, and the net that it listens through.
#[derive(Debug)]
pub struct HttpServerConfig {
    pub bind: Address,
    pub net: NetRef,
    pub listen: NetRef,
}

impl Config for HttpServerConfig {
    open spec fn net_refs(&self) -> Seq<NetRefView> {
        self.net.net_refs() + self.listen.net_refs()
    }

    open spec fn same_settings(&self, other: &Self) -> bool {
        self.bind@ == other.bind@
    }

    proof fn lemma_same_settings(&self) {
    }

    proof fn lemma_same_settings_chain(&self, mid: &Self, last: &Self) {
    }

    fn visit<V: Visitor>(&mut self, visitor: &mut V) -> (r: Result<(), Error>) {
        visit_both(&mut self.net, &mut self.listen, visitor)
    }
}

/// The configuration of the server that takes redirected connections.
#[derive(Clone, Debug)]
pub struct RedirServerConfig {
    pub bind: String,
}

/// The destination that a request names: its authority as it stands where
/// that holds a port, else with the port 80 behind it.
pub open spec fn with_default_port(authority: Seq<char>) -> Seq<char> {
    if authority.contains(':') {
        authority
    } else {
        authority + ":80"@
    }
}

/// Whether `text` holds a colon.
pub fn has_colon(text: &str) -> (r: bool)
    ensures
        r == text@.contains(':'),
{
    let n = text.unicode_len();
    let mut i: usize = 0;
    while i < n
        invariant
            n == text@.len(),
            i <= n,
            forall|j: int| 0 <= j < i ==> text@[j] != ':',
        decreases n - i,
    {
        if text.get_char(i) == ':' {
            return true;
        }
        i += 1;
    }
    false
}

/// The destination of a proxied request from its authority: a missing port
/// reads as 80.
pub fn host_with_port(authority: String) -> (r: String)
    ensures
        r@ == with_default_port(authority@),
{
    if has_colon(authority.as_str()) {
        authority
    } else {
        authority.concat(":80")
    }
}

} // verus!
