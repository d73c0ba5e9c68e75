//! The typed configuration of a net, one variant for each type of net that
//! comes with the router.

use crate::builtin::alias::AliasNetConfig;
use crate::builtin::combine::CombineNetConfig;
use crate::builtin::local::LocalNetConfig;
use crate::error::Error;
use crate::http::HttpNetConfig;
use crate::net_ref::NetRefView;
use crate::rule::config::RuleNetConfig;
use crate::sniffer::config::DNSNetConfig;
use crate::visitor::{Config, EmptyConfig, Visitor};
use vstd::prelude::*;

verus! {

/// The typed configuration of a net.
#[derive(Debug)]
pub enum NetConfig {
    Local(LocalNetConfig),
    Noop(EmptyConfig),
    Alias(AliasNetConfig),
    Combine(CombineNetConfig),
    Rule(RuleNetConfig),
    DnsSniffer(DNSNetConfig),
    Http(HttpNetConfig),
}

/// The name under which the type of a configuration is registered.
pub open spec fn kind_of(config: NetConfig) -> Seq<char> {
    match config {
        NetConfig::Local(_) => "local"@,
        NetConfig::Noop(_) => "noop"@,
        NetConfig::Alias(_) => "alias"@,
        NetConfig::Combine(_) => "combine"@,
        NetConfig::Rule(_) => "rule"@,
        NetConfig::DnsSniffer(_) => "dns_sniffer"@,
        NetConfig::Http(_) => "http"@,
    }
}

impl NetConfig {
    /// The name under which the type of the configuration is registered.
    pub fn kind(&self) -> (r: String)
        ensures
            r@ == kind_of(*self),
    {
        match self {
            NetConfig::Local(_) => "local".to_string(),
            NetConfig::Noop(_) => "noop".to_string(),
            NetConfig::Alias(_) => "alias".to_string(),
            NetConfig::Combine(_) => "combine".to_string(),
            NetConfig::Rule(_) => "rule".to_string(),
            NetConfig::DnsSniffer(_) => "dns_sniffer".to_string(),
            NetConfig::Http(_) => "http".to_string(),
        }
    }
}

impl Config for NetConfig {
    open spec fn net_refs(&self) -> Seq<NetRefView> {
        match self {
            NetConfig::Local(c) => c.net_refs(),
            NetConfig::Noop(c) => c.net_refs(),
            NetConfig::Alias(c) => c.net_refs(),
            NetConfig::Combine(c) => c.net_refs(),
            NetConfig::Rule(c) => c.net_refs(),
            NetConfig::DnsSniffer(c) => c.net_refs(),
            NetConfig::Http(c) => c.net_refs(),
        }
    }

    open spec fn same_settings(&self, other: &Self) -> bool {
        match (self, other) {
            (NetConfig::Local(a), NetConfig::Local(b)) => a.same_settings(b),
            (NetConfig::Noop(a), NetConfig::Noop(b)) => a.same_settings(b),
            (NetConfig::Alias(a), NetConfig::Alias(b)) => a.same_settings(b),
            (NetConfig::Combine(a), NetConfig::Combine(b)) => a.same_settings(b),
            (NetConfig::Rule(a), NetConfig::Rule(b)) => a.same_settings(b),
            (NetConfig::DnsSniffer(a), NetConfig::DnsSniffer(b)) => a.same_settings(b),
            (NetConfig::Http(a), NetConfig::Http(b)) => a.same_settings(b),
            _ => false,
        }
    }

    proof fn lemma_same_settings(&self) {
        match self {
            NetConfig::Local(c) => c.lemma_same_settings(),
            NetConfig::Noop(c) => c.lemma_same_settings(),
            NetConfig::Alias(c) => c.lemma_same_settings(),
            NetConfig::Combine(c) => c.lemma_same_settings(),
            NetConfig::Rule(c) => c.lemma_same_settings(),
            NetConfig::DnsSniffer(c) => c.lemma_same_settings(),
            NetConfig::Http(c) => c.lemma_same_settings(),
        }
    }

    proof fn lemma_same_settings_chain(&self, mid: &Self, last: &Self) {
        match (self, mid, last) {
            (NetConfig::Local(a), NetConfig::Local(b), NetConfig::Local(c)) => a.lemma_same_settings_chain(b, c),
            (NetConfig::Noop(a), NetConfig::Noop(b), NetConfig::Noop(c)) => a.lemma_same_settings_chain(b, c),
            (NetConfig::Alias(a), NetConfig::Alias(b), NetConfig::Alias(c)) => a.lemma_same_settings_chain(b, c),
            (NetConfig::Combine(a), NetConfig::Combine(b), NetConfig::Combine(c)) => a.lemma_same_settings_chain(b, c),
            (NetConfig::Rule(a), NetConfig::Rule(b), NetConfig::Rule(c)) => a.lemma_same_settings_chain(b, c),
            (NetConfig::DnsSniffer(a), NetConfig::DnsSniffer(b), NetConfig::DnsSniffer(c)) => a.lemma_same_settings_chain(
                b,
                c,
            ),
            (NetConfig::Http(a), NetConfig::Http(b), NetConfig::Http(c)) => a.lemma_same_settings_chain(b, c),
            _ => {},
        }
    }

    fn visit<V: Visitor>(&mut self, visitor: &mut V) -> (r: Result<(), Error>) {
        match self {
            NetConfig::Local(c) => c.visit(visitor),
            NetConfig::Noop(c) => c.visit(visitor),
            NetConfig::Alias(c) => c.visit(visitor),
            NetConfig::Combine(c) => c.visit(visitor),
            NetConfig::Rule(c) => c.visit(visitor),
            NetConfig::DnsSniffer(c) => c.visit(visitor),
            NetConfig::Http(c) => c.visit(visitor),
        }
    }
}

} // verus!
