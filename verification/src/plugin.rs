//! What a plugin registers: the types of nets and servers that it brings,
//! each with the way from a typed configuration to what is built.

use crate::builtin::net_config::NetConfig;
use crate::error::Error;
use crate::name_table::NameTable;
use crate::net_ref::{NetHandle, NetMap};
use crate::visitor::{
    collect_names, first_missing, get_dependency, names_of, resolve_net, resolved_upto, Config,
};
use vstd::prelude::*;

verus! {

/// The way from the typed configuration of one type of net to the net.
#[derive(Clone, Copy, Debug)]
pub struct NetResolver {}

/// The way from the configuration of one type of server to the server.
#[derive(Clone, Copy, Debug)]
pub struct ServerResolver {}

impl NetResolver {
    pub fn new() -> (r: NetResolver) {
        NetResolver {  }
    }

    /// Makes `cfg` ready for the factory of the net: every reference in it
    /// is filled from `nets`. Fails where `nets` lacks a name.
    pub fn build(&self, nets: &NetMap, cfg: NetConfig) -> (r: Result<NetConfig, Error>)
        requires
            nets.wf(),
        ensures
            match r {
                Ok(built) => {
                    &&& first_missing(nets@, cfg.net_refs()) == cfg.net_refs().len()
                    &&& cfg.same_settings(&built)
                    &&& built.net_refs() == resolved_upto(nets@, cfg.net_refs(), cfg.net_refs().len() as int)
                },
                Err(e) => {
                    &&& first_missing(nets@, cfg.net_refs()) < cfg.net_refs().len()
                    &&& e matches Error::NotFound(name)
                    &&& name@ == cfg.net_refs()[first_missing(nets@, cfg.net_refs())].name
                },
            },
    {
        let mut cfg = cfg;
        proof {
            crate::visitor::lemma_first_missing(nets@, cfg.net_refs());
        }
        match resolve_net(&mut cfg, nets) {
            Ok(()) => Ok(cfg),
            Err(e) => Err(e),
        }
    }

    /// The names of the nets that `cfg` refers to, each once, in the order
    /// in which the configuration first names them.
    pub fn get_dependency(&self, cfg: &mut NetConfig) -> (r: Result<Vec<String>, Error>)
        ensures
            old(cfg).same_settings(final(cfg)),
            final(cfg).net_refs() == old(cfg).net_refs(),
            r matches Ok(names) && names_of(names@) == collect_names(Seq::empty(), old(cfg).net_refs()),
    {
        get_dependency(cfg)
    }
}

/// A server that is ready to be started: its type, the net that it listens
/// through, the net that its flows go to, and its settings.
#[derive(Debug)]
pub struct ServerPlan {
    pub server_type: String,
    pub listen: NetHandle,
    pub net: NetHandle,
    pub opt: serde_json::Value,
}

impl ServerResolver {
    pub fn new() -> (r: ServerResolver) {
        ServerResolver {  }
    }

    /// Puts together what the factory of the server gets.
    pub fn build(&self, server_type: String, listen_net: NetHandle, net: NetHandle, cfg: serde_json::Value) -> (r: Result<
        ServerPlan,
        Error,
    >)
        ensures
            r matches Ok(p) && p.server_type == server_type && p.listen == listen_net && p.net == net && p.opt == cfg,
    {
        Ok(ServerPlan { server_type, listen: listen_net, net, opt: cfg })
    }
}

/// The types of nets and servers that one plugin brings.
#[derive(Debug)]
pub struct Registry {
    pub net: NameTable<NetResolver>,
    pub server: NameTable<ServerResolver>,
}

impl Registry {
    /// In neither table a name occurs twice.
    pub open spec fn wf(&self) -> bool {
        &&& self.net.wf()
        &&& self.server.wf()
    }

    pub fn new() -> (r: Registry)
        ensures
            r.wf(),
            r.net.entries@.len() == 0,
            r.server.entries@.len() == 0,
    {
        Registry { net: NameTable::new(), server: NameTable::new() }
    }

    /// Registers a type of net under `name`; a type that stood there is replaced.
    pub fn add_net(&mut self, name: String)
        requires
            old(self).wf(),
        ensures
            final(self).wf(),
            final(self).server == old(self).server,
            final(self).net.has(name@),
            final(self).net.agrees_but(&old(self).net, name@),
    {
        let _ = self.net.insert(name, NetResolver::new());
    }

    /// Registers a type of server under `name`; a type that stood there is replaced.
    pub fn add_server(&mut self, name: String)
        requires
            old(self).wf(),
        ensures
            final(self).wf(),
            final(self).net == old(self).net,
            final(self).server.has(name@),
            final(self).server.agrees_but(&old(self).server, name@),
    {
        let _ = self.server.insert(name, ServerResolver::new());
    }
}

} // verus!
