//! The registry of the router: every type of net and server that is
//! loaded, with the plugin that brought it.

use crate::builtin::net_config::NetConfig;
use crate::error::Error;
use crate::name_table::{entry_names, NameTable, Named};
use crate::net_ref::{NetHandle, NetMap};
use crate::plugin::{NetResolver, ServerPlan, ServerResolver};
use crate::visitor::{first_missing, resolved_upto, Config};
use vstd::prelude::*;

verus! {

/// A type of net and the plugin that brought it.
#[derive(Debug)]
pub struct NetItem {
    pub plugin_name: String,
    pub resolver: NetResolver,
}

/// A type of server and the plugin that brought it.
#[derive(Debug)]
pub struct ServerItem {
    pub plugin_name: String,
    pub resolver: ServerResolver,
}

impl NetItem {
    /// Makes `config` ready for the factory of the net: every reference in
    /// it is filled from `nets`. Fails where `nets` lacks a name.
    pub fn build(&self, nets: &NetMap, config: NetConfig) -> (r: Result<NetConfig, Error>)
        requires
            nets.wf(),
        ensures
            match r {
                Ok(built) => {
                    &&& first_missing(nets@, config.net_refs()) == config.net_refs().len()
                    &&& config.same_settings(&built)
                    &&& built.net_refs() == resolved_upto(nets@, config.net_refs(), config.net_refs().len() as int)
                },
                Err(e) => {
                    &&& first_missing(nets@, config.net_refs()) < config.net_refs().len()
                    &&& e matches Error::NotFound(name)
                    &&& name@ == config.net_refs()[first_missing(nets@, config.net_refs())].name
                },
            },
    {
        self.resolver.build(nets, config)
    }
}

impl ServerItem {
    /// Puts together what the factory of the server gets.
    pub fn build(&self, server_type: String, listen_net: NetHandle, net: NetHandle, config: serde_json::Value) -> (r: Result<
        ServerPlan,
        Error,
    >)
        ensures
            r matches Ok(p) && p.server_type == server_type && p.listen == listen_net && p.net == net && p.opt
                == config,
    {
        self.resolver.build(server_type, listen_net, net, config)
    }
}

/// The types of nets and servers that are loaded.
#[derive(Debug)]
pub struct Registry {
    pub net: NameTable<NetItem>,
    pub server: NameTable<ServerItem>,
}

impl Registry {
    /// In neither table a name occurs twice.
    pub open spec fn wf(&self) -> bool {
        &&& self.net.wf()
        &&& self.server.wf()
    }

    pub fn new() -> (r: Registry)
        ensures
            r.wf(),
            r.net.entries@.len() == 0,
            r.server.entries@.len() == 0,
    {
        Registry { net: NameTable::new(), server: NameTable::new() }
    }

    /// Takes over every type that `registry` holds, under the name of the
    /// plugin. A type of the same name that was loaded before is replaced.
    pub fn add_registry(&mut self, plugin_name: String, registry: crate::plugin::Registry)
        requires
            old(self).wf(),
        ensures
            final(self).wf(),
            forall|n: Seq<char>| #[trigger] final(self).net.has(n) == (old(self).net.has(n) || registry.net.names().contains(n)),
            forall|n: Seq<char>|
                registry.net.names().contains(n) ==> (#[trigger] final(self).net.value_of(n)).plugin_name@ == plugin_name@,
            forall|n: Seq<char>|
                old(self).net.has(n) && !registry.net.names().contains(n) ==> #[trigger] final(self).net.value_of(n) == old(
                    self,
                ).net.value_of(n),
            forall|n: Seq<char>|
                #[trigger] final(self).server.has(n) == (old(self).server.has(n) || registry.server.names().contains(n)),
            forall|n: Seq<char>|
                registry.server.names().contains(n) ==> (#[trigger] final(self).server.value_of(n)).plugin_name@
                    == plugin_name@,
            forall|n: Seq<char>|
                old(self).server.has(n) && !registry.server.names().contains(n) ==> #[trigger] final(self).server.value_of(n)
                    == old(self).server.value_of(n),
    {
        let ghost net_names = registry.net.names();
        let ghost server_names = registry.server.names();
        let ghost before = *self;
        let mut nets = registry.net.entries;
        let mut servers = registry.server.entries;
        while nets.len() > 0
            invariant
                self.wf(),
                self.server == before.server,
                nets@.len() <= net_names.len(),
                entry_names(nets@) == net_names.skip(net_names.len() - nets@.len()),
                forall|n: Seq<char>|
                    #[trigger] self.net.has(n) == (before.net.has(n) || net_names.take(net_names.len() - nets@.len()).contains(
                        n,
                    )),
                forall|n: Seq<char>|
                    net_names.take(net_names.len() - nets@.len()).contains(n) ==> (#[trigger] self.net.value_of(
                        n,
                    )).plugin_name@ == plugin_name@,
                forall|n: Seq<char>|
                    before.net.has(n) && !net_names.take(net_names.len() - nets@.len()).contains(n)
                        ==> #[trigger] self.net.value_of(n) == before.net.value_of(n),
            decreases nets@.len(),
        {
            let ghost done = net_names.len() - nets@.len();
            let ghost table = self.net;
            let ghost nets0 = nets@;
            let entry = nets.remove(0);
            let Named { name, value } = entry;
            let ghost n0 = name@;
            proof {
                assert(entry_names(nets0)[0] == n0);
                assert(net_names.skip(done)[0] == net_names[done]);
                assert forall|j: int| 0 <= j < nets@.len() implies entry_names(nets@)[j] == net_names.skip(done + 1)[j] by {
                    assert(nets@[j] == nets0[j + 1]);
                    assert(entry_names(nets0)[j + 1] == net_names.skip(done)[j + 1]);
                }
            }
            let _ = self.net.insert(name, NetItem { plugin_name: plugin_name.clone(), resolver: value });
            proof {
                assert(net_names[done] == n0);
                assert(entry_names(nets@) =~= net_names.skip(done + 1));
                assert(net_names.take(done + 1) =~= net_names.take(done).push(n0));
                assert forall|n: Seq<char>|
                    #[trigger] self.net.has(n) == (before.net.has(n) || net_names.take(done + 1).contains(n)) by {
                    if n == n0 {
                        assert(net_names.take(done + 1)[done] == n0);
                    } else {
                        assert(self.net.has(n) == table.has(n));
                        lemma_contains_pushed(net_names.take(done), n0, n);
                    }
                }
                assert forall|n: Seq<char>| net_names.take(done + 1).contains(n) implies (#[trigger] self.net.value_of(
                    n,
                )).plugin_name@ == plugin_name@ by {
                    if n != n0 {
                        lemma_contains_pushed(net_names.take(done), n0, n);
                        assert(self.net.has(n) == table.has(n));
                        assert(table.has(n));
                        assert(table.value_of(n).plugin_name@ == plugin_name@);
                    }
                }
                assert forall|n: Seq<char>| before.net.has(n) && !net_names.take(done + 1).contains(n) implies #[trigger] self.net.value_of(
                    n,
                ) == before.net.value_of(n) by {
                    lemma_contains_pushed(net_names.take(done), n0, n);
                    assert(n != n0);
                    assert(self.net.has(n) == table.has(n));
                    assert(table.has(n));
                    assert(table.value_of(n) == before.net.value_of(n));
                }
            }
        }
        proof {
            assert(net_names.take(net_names.len() as int) =~= net_names);
        }
        let ghost mid = *self;
        while servers.len() > 0
            invariant
                self.wf(),
                self.net == mid.net,
                servers@.len() <= server_names.len(),
                entry_names(servers@) == server_names.skip(server_names.len() - servers@.len()),
                forall|n: Seq<char>|
                    #[trigger] self.server.has(n) == (before.server.has(n) || server_names.take(
                        server_names.len() - servers@.len(),
                    ).contains(n)),
                forall|n: Seq<char>|
                    server_names.take(server_names.len() - servers@.len()).contains(n) ==> (#[trigger] self.server.value_of(
                        n,
                    )).plugin_name@ == plugin_name@,
                forall|n: Seq<char>|
                    before.server.has(n) && !server_names.take(server_names.len() - servers@.len()).contains(n)
                        ==> #[trigger] self.server.value_of(n) == before.server.value_of(n),
            decreases servers@.len(),
        {
            let ghost done = server_names.len() - servers@.len();
            let ghost table = self.server;
            let ghost servers0 = servers@;
            let entry = servers.remove(0);
            let Named { name, value } = entry;
            let ghost n0 = name@;
            proof {
                assert(entry_names(servers0)[0] == n0);
                assert(server_names.skip(done)[0] == server_names[done]);
                assert forall|j: int| 0 <= j < servers@.len() implies entry_names(servers@)[j] == server_names.skip(
                    done + 1,
                )[j] by {
                    assert(servers@[j] == servers0[j + 1]);
                    assert(entry_names(servers0)[j + 1] == server_names.skip(done)[j + 1]);
                }
            }
            let _ = self.server.insert(name, ServerItem { plugin_name: plugin_name.clone(), resolver: value });
            proof {
                assert(server_names[done] == n0);
                assert(entry_names(servers@) =~= server_names.skip(done + 1));
                assert(server_names.take(done + 1) =~= server_names.take(done).push(n0));
                assert forall|n: Seq<char>|
                    #[trigger] self.server.has(n) == (before.server.has(n) || server_names.take(done + 1).contains(n)) by {
                    if n == n0 {
                        assert(server_names.take(done + 1)[done] == n0);
                    } else {
                        assert(self.server.has(n) == table.has(n));
                        lemma_contains_pushed(server_names.take(done), n0, n);
                    }
                }
                assert forall|n: Seq<char>| server_names.take(done + 1).contains(n) implies (#[trigger] self.server.value_of(
                    n,
                )).plugin_name@ == plugin_name@ by {
                    if n != n0 {
                        lemma_contains_pushed(server_names.take(done), n0, n);
                        assert(self.server.has(n) == table.has(n));
                        assert(table.has(n));
                        assert(table.value_of(n).plugin_name@ == plugin_name@);
                    }
                }
                assert forall|n: Seq<char>|
                    before.server.has(n) && !server_names.take(done + 1).contains(n) implies #[trigger] self.server.value_of(
                    n,
                ) == before.server.value_of(n) by {
                    lemma_contains_pushed(server_names.take(done), n0, n);
                    assert(n != n0);
                    assert(self.server.has(n) == table.has(n));
                    assert(table.has(n));
                    assert(table.value_of(n) == before.server.value_of(n));
                }
            }
        }
        proof {
            assert(server_names.take(server_names.len() as int) =~= server_names);
        }
    }

    /// The type of net that is loaded under `net_type`.
    pub fn get_net(&self, net_type: &String) -> (r: Result<&NetItem, Error>)
        ensures
            match r {
                Ok(item) => self.net.has(net_type@) && *item == self.net.value_of(net_type@),
                Err(e) => {
                    &&& !self.net.has(net_type@)
                    &&& e matches Error::NotFound(msg)
                    &&& msg@ == "Net type is not loaded: "@ + net_type@
                },
            },
    {
        match self.net.get(net_type) {
            Some(item) => Ok(item),
            None => Err(Error::NotFound("Net type is not loaded: ".to_string().concat(net_type.as_str()))),
        }
    }

    /// The type of server that is loaded under `server_type`.
    pub fn get_server(&self, server_type: &String) -> (r: Result<&ServerItem, Error>)
        ensures
            match r {
                Ok(item) => self.server.has(server_type@) && *item == self.server.value_of(server_type@),
                Err(e) => {
                    &&& !self.server.has(server_type@)
                    &&& e matches Error::NotFound(msg)
                    &&& msg@ == "Server type is not loaded: "@ + server_type@
                },
            },
    {
        match self.server.get(server_type) {
            Some(item) => Ok(item),
            None => Err(Error::NotFound("Server type is not loaded: ".to_string().concat(server_type.as_str()))),
        }
    }
}

/// A list with one more item holds what the list held, and the item.
pub proof fn lemma_contains_pushed(items: Seq<Seq<char>>, last: Seq<char>, n: Seq<char>)
    ensures
        items.push(last).contains(n) == (items.contains(n) || n == last),
{
    let pushed = items.push(last);
    if pushed.contains(n) {
        let i = choose|i: int| 0 <= i < pushed.len() && pushed[i] == n;
        if i < items.len() {
            assert(items[i] == n);
        }
    }
    if items.contains(n) {
        let i = choose|i: int| 0 <= i < items.len() && items[i] == n;
        assert(pushed[i] == n);
    }
    if n == last {
        assert(pushed[items.len() as int] == n);
    }
}

} // verus!
