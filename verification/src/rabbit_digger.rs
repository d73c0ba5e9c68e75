//! The supervisor of the router: it builds the nets and servers of a
//! configuration, keeps track of what runs, and swaps single nets while the
//! rest keeps running.

pub mod builder;
pub mod connection_manager;
pub mod event;
pub mod running;
pub mod stream;

use crate::builtin::net_config::{kind_of, NetConfig};
use crate::config::{Config, ConfigNet, Net, Server};
use crate::error::Error;
use crate::lru::{lemma_place_of, place_of};
use crate::name_table::{entry_names, NameTable, Named};
use crate::net_ref::{NetHandle, NetMap};
use crate::rabbit_digger::builder::{
    build_net, build_nets, build_outcome, built_in_order, completes, first_failing, is_name_cycle,
    lemma_built_names, lemma_built_where_possible, RunningNet,
};
use crate::rabbit_digger::connection_manager::{Connection, ConnectionManager, ConnectionView};
use crate::rabbit_digger::running::{
    build_server, find_running, first_unserved, is_served, is_server_failure, lemma_first_unserved, running_names, serves,
    ServerInfo, ServerState,
};
use crate::registry::Registry;
use crate::visitor::{first_missing, resolved_upto, Config as TypedConfig};
use vstd::prelude::*;

verus! {

/// What runs: the configuration without its nets, which are kept as running
/// nets, the registry that everything was built from, the nets in the order
/// in which they were built, and the servers.
#[derive(Debug)]
pub struct Running {
    pub config: Config,
    pub registry: Registry,
    pub nets: Vec<RunningNet>,
    pub servers: Vec<ServerInfo>,
}

/// The two states of the supervisor.
#[derive(Debug)]
pub enum State {
    WaitConfig,
    Running(Running),
}

/// The supervisor and the accounting of the flows.
#[derive(Debug)]
pub struct RabbitDigger {
    pub state: State,
    pub manager: ConnectionManager,
}

/// Makes supervisors.
#[derive(Clone, Copy, Debug)]
pub struct RabbitDiggerBuilder {}

/// The schemas of the types of nets and servers that are loaded, by name.
#[derive(Debug)]
pub struct RegistrySchema {
    pub net: NameTable<serde_json::Value>,
    pub server: NameTable<serde_json::Value>,
}

/// A server that ended with an error.
#[derive(Debug)]
pub struct ServerFailure {
    pub name: String,
    pub error: Error,
}

/// Every net has its place as its handle, and every reference holds the
/// handle of the net that has the name referred to.
pub open spec fn nets_resolved(nets: Seq<RunningNet>) -> bool {
    &&& forall|k: int| 0 <= k < nets.len() ==> (#[trigger] nets[k]).net.id == k
    &&& forall|k: int, t: int|
        0 <= k < nets.len() && 0 <= t < nets[k].opt.net_refs().len() ==> is_running_net(
            nets,
            #[trigger] nets[k].opt.net_refs()[t],
        )
}

/// The reference holds the handle of a running net that has the name
/// referred to.
pub open spec fn is_running_net(nets: Seq<RunningNet>, net_ref: crate::net_ref::NetRefView) -> bool {
    net_ref.net matches Some(h) && h.id < nets.len() && nets[h.id as int].name@ == net_ref.name
}

/// The places of those of the first `n` servers that run.
pub open spec fn running_places(servers: Seq<ServerInfo>, n: int) -> Seq<usize>
    decreases n,
{
    if n <= 0 {
        Seq::empty()
    } else {
        let before = running_places(servers, n - 1);
        if servers[n - 1].server.state is Running {
            before.push((n - 1) as usize)
        } else {
            before
        }
    }
}

/// Those of the first `n` servers that ended with an error: their names
/// and their errors.
pub open spec fn failures_of(servers: Seq<ServerInfo>, n: int) -> Seq<(Seq<char>, Error)>
    decreases n,
{
    if n <= 0 {
        Seq::empty()
    } else {
        let before = failures_of(servers, n - 1);
        match servers[n - 1].server.state {
            ServerState::Finished { result: Err(e) } => before.push((servers[n - 1].name@, e)),
            _ => before,
        }
    }
}

/// What a list of failures says.
pub open spec fn failures_view(failures: Seq<ServerFailure>) -> Seq<(Seq<char>, Error)> {
    Seq::new(failures.len(), |i: int| (failures[i].name@, failures[i].error))
}

/// Nets that were built in order are resolved.
pub proof fn lemma_built_is_resolved(nets: Seq<RunningNet>)
    requires
        built_in_order(nets),
    ensures
        nets_resolved(nets),
{
    assert forall|k: int, t: int| 0 <= k < nets.len() && 0 <= t < nets[k].opt.net_refs().len() implies is_running_net(
        nets,
        #[trigger] nets[k].opt.net_refs()[t],
    ) by {
        assert(crate::rabbit_digger::builder::is_earlier_net(nets, k, nets[k].opt.net_refs()[t]));
    }
}

/// The running nets by name: each name with the handle of the first net of
/// that name.
pub open spec fn running_map(nets: Seq<RunningNet>) -> Map<Seq<char>, NetHandle> {
    Map::new(
        |name: Seq<char>| place_of(running_names(nets), name) < nets.len(),
        |name: Seq<char>| nets[place_of(running_names(nets), name)].net,
    )
}

/// What starting ends in, for the nets of the configuration with `noop` and
/// `local` among them and for its servers. The supervisor runs where the
/// nets are built and every server names running nets. Else it waits on, and
/// the error is that of building the nets or, where they were built, that of
/// the first server that names a net that is not running.
pub open spec fn start_outcome(
    registry: &Registry,
    nets: Seq<Named<Net>>,
    servers: Seq<Named<Server>>,
    r: Result<(), Error>,
    after: State,
) -> bool {
    match r {
        Ok(()) => {
            &&& after matches State::Running(run)
            &&& build_outcome(registry, nets, Ok(run.nets))
            &&& first_unserved(run.nets@, servers) == servers.len()
            &&& run.registry == *registry
            &&& run.servers@.len() == servers.len()
            &&& forall|i: int| 0 <= i < run.servers@.len() ==> serves(#[trigger] run.servers@[i], servers[i], run.nets@)
        },
        Err(e) => {
            &&& after is WaitConfig
            &&& build_outcome(registry, nets, Err(e)) || exists|built: Vec<RunningNet>|
                build_outcome(registry, nets, Ok(built)) && #[trigger] is_server_failure(built@, servers, e)
        },
    }
}

/// Both nets that the server names are among the configured nets.
pub open spec fn names_configured_nets(nets: Seq<Named<Net>>, server: Server) -> bool {
    entry_names(nets).contains(server.listen@) && entry_names(nets).contains(server.net@)
}

/// Starting succeeds exactly where it can: where each net can be loaded, no
/// circle of references leads through the nets, and every server names
/// nets of the configuration.
pub proof fn lemma_started_where_possible(
    registry: &Registry,
    nets: Seq<Named<Net>>,
    servers: Seq<Named<Server>>,
    r: Result<(), Error>,
    after: State,
)
    requires
        start_outcome(registry, nets, servers, r, after),
    ensures
        r is Ok <==> {
            &&& first_failing(registry, nets, 0) == nets.len()
            &&& forall|cycle: Seq<Seq<char>>| !is_name_cycle(nets, cycle)
            &&& forall|s: int| 0 <= s < servers.len() ==> names_configured_nets(nets, (#[trigger] servers[s]).value)
        },
{
    match r {
        Ok(()) => {
            let run = after->Running_0;
            lemma_first_unserved(run.nets@, servers);
            assert forall|s: int| 0 <= s < servers.len() implies names_configured_nets(
                nets,
                (#[trigger] servers[s]).value,
            ) by {
                assert(is_served(run.nets@, servers[s].value));
                lemma_built_names(registry, nets, run.nets, servers[s].value.listen@);
                lemma_built_names(registry, nets, run.nets, servers[s].value.net@);
            }
        },
        Err(e) => {
            if build_outcome(registry, nets, Err(e)) {
                lemma_built_where_possible(registry, nets, Err(e));
            } else {
                let built = choose|built: Vec<RunningNet>|
                    build_outcome(registry, nets, Ok(built)) && #[trigger] is_server_failure(built@, servers, e);
                lemma_first_unserved(built@, servers);
                let k = first_unserved(built@, servers);
                assert(!is_served(built@, servers[k].value));
                lemma_built_names(registry, nets, built, servers[k].value.listen@);
                lemma_built_names(registry, nets, built, servers[k].value.net@);
                assert(!names_configured_nets(nets, servers[k].value));
            }
        },
    }
}

/// The running nets by name: each name leads to the handle of the first
/// net of that name.
pub fn net_map_of(nets: &Vec<RunningNet>) -> (r: NetMap)
    ensures
        r.wf(),
        r@ == running_map(nets@),
        forall|name: Seq<char>|
            #[trigger] r@.contains_key(name) == (place_of(running_names(nets@), name) < nets@.len()),
        forall|name: Seq<char>| #[trigger]
            r@.contains_key(name) ==> r@[name] == nets@[place_of(running_names(nets@), name)].net,
{
    let mut map = NetMap::new();
    let mut i: usize = 0;
    assert(running_names(nets@).take(0) =~= Seq::<Seq<char>>::empty());
    while i < nets.len()
        invariant
            i <= nets@.len(),
            map.wf(),
            forall|name: Seq<char>|
                #[trigger] map@.contains_key(name) == (place_of(running_names(nets@).take(i as int), name) < i),
            forall|name: Seq<char>| #[trigger]
                map@.contains_key(name) ==> map@[name] == nets@[place_of(running_names(nets@).take(i as int), name)].net,
        decreases nets@.len() - i,
    {
        let ghost names = running_names(nets@);
        let ghost map0 = map@;
        let ghost here = names[i as int];
        if !map.contains_key(&nets[i].name) {
            let _ = map.insert(nets[i].name.clone(), nets[i].net);
        }
        proof {
            assert(names.take(i + 1) =~= names.take(i as int).push(here));
            assert forall|name: Seq<char>|
                #[trigger] map@.contains_key(name) == (place_of(names.take(i + 1), name) < i + 1) by {
                crate::name_table::lemma_place_pushed(names.take(i as int), here, name);
                lemma_place_of(names.take(i as int), name);
            }
            assert forall|name: Seq<char>| #[trigger] map@.contains_key(name) implies map@[name] == nets@[place_of(
                names.take(i + 1),
                name,
            )].net by {
                crate::name_table::lemma_place_pushed(names.take(i as int), here, name);
                lemma_place_of(names.take(i as int), name);
            }
        }
        i += 1;
    }
    proof {
        assert(running_names(nets@).take(nets@.len() as int) =~= running_names(nets@));
        assert(map@ =~= running_map(nets@));
    }
    map
}

impl RabbitDiggerBuilder {
    pub fn new() -> (r: RabbitDiggerBuilder) {
        RabbitDiggerBuilder {  }
    }

    /// A supervisor that waits for its first configuration.
    pub fn build(&self) -> (r: RabbitDigger)
        ensures
            r.state is WaitConfig,
            r.manager.wf(),
            r.manager@ == Map::<u128, ConnectionView>::empty(),
    {
        RabbitDigger::new()
    }
}

impl RabbitDigger {
    /// The accounting is well formed, and what runs is resolved.
    pub open spec fn wf(&self) -> bool {
        &&& self.manager.wf()
        &&& self.state matches State::Running(run) ==> nets_resolved(run.nets@)
    }

    /// A supervisor that waits for its first configuration.
    pub fn new() -> (r: RabbitDigger)
        ensures
            r.state is WaitConfig,
            r.wf(),
            r.manager@ == Map::<u128, ConnectionView>::empty(),
    {
        RabbitDigger { state: State::WaitConfig, manager: ConnectionManager::new() }
    }

    /// Whether something runs.
    pub fn is_running(&self) -> (r: bool)
        ensures
            r == (self.state is Running),
    {
        matches!(self.state, State::Running(_))
    }

    /// The state in a word.
    pub fn state_str(&self) -> (r: &'static str)
        ensures
            r@ == (if self.state is Running {
                "Running"@
            } else {
                "WaitConfig"@
            }),
    {
        match self.state {
            State::WaitConfig => "WaitConfig",
            State::Running(_) => "Running",
        }
    }

    /// The configuration that runs.
    pub fn config(&self) -> (r: Result<&Config, Error>)
        ensures
            match self.state {
                State::Running(run) => r matches Ok(c) && *c == run.config,
                State::WaitConfig => r matches Err(Error::Other(msg)) && msg@ == "Not running"@,
            },
    {
        match &self.state {
            State::Running(run) => Ok(&run.config),
            State::WaitConfig => Err(Error::Other("Not running".to_string())),
        }
    }

    /// The live flows.
    pub fn connection(&self) -> (r: &Vec<Connection>)
        ensures
            *r == self.manager.connections,
    {
        self.manager.borrow_state()
    }

    /// Builds the nets and the servers of `config` from `registry` and takes
    /// them as what runs. The servers are left for the caller to start.
    ///
    /// Fails while something runs, and where the nets or the servers cannot
    /// be built; the supervisor is then left as it was.
    #[verifier::rlimit(60)]
    pub fn start(&mut self, config: Config, registry: Registry) -> (r: Result<(), Error>)
        requires
            old(self).wf(),
            config.net.wf(),
        ensures
            final(self).wf(),
            final(self).manager == old(self).manager,
            old(self).state is Running ==> {
                &&& final(self).state == old(self).state
                &&& r matches Err(Error::Other(msg))
                &&& msg@ == "Already running"@
            },
            old(self).state is WaitConfig ==> exists|completed: ConfigNet| #[trigger]
                completes(&config.net, &completed) && start_outcome(
                    &registry,
                    completed.entries@,
                    config.server.entries@,
                    r,
                    final(self).state,
                ),
    {
        if self.is_running() {
            return Err(Error::Other("Already running".to_string()));
        }
        let ghost table = config.net;
        let ghost wanted = config.server.entries@;
        let Config { plugin_path, net, server, composite, import } = config;
        let outcome = build_nets(&registry, net);
        let ghost built = outcome;
        let ghost completed = choose|completed: ConfigNet| #[trigger]
            completes(&table, &completed) && build_outcome(&registry, completed.entries@, built);
        let nets = match outcome {
            Ok(nets) => nets,
            Err(e) => {
                proof {
                    assert(built == Err::<Vec<RunningNet>, Error>(e));
                    assert(completes(&table, &completed) && start_outcome(
                        &registry,
                        completed.entries@,
                        wanted,
                        Err(e),
                        self.state,
                    ));
                }
                return Err(e);
            },
        };
        let servers = match build_server(&nets, &server) {
            Ok(servers) => servers,
            Err(e) => {
                proof {
                    assert(build_outcome(&registry, completed.entries@, Ok(nets)) && is_server_failure(
                        nets@,
                        wanted,
                        e,
                    ));
                    assert(completes(&table, &completed) && start_outcome(
                        &registry,
                        completed.entries@,
                        wanted,
                        Err(e),
                        self.state,
                    ));
                }
                return Err(e);
            },
        };
        proof {
            lemma_built_is_resolved(nets@);
        }
        let kept = Config { plugin_path, net: NameTable::new(), server, composite, import };
        let ghost kept_registry = registry;
        self.state = State::Running(Running { config: kept, registry, nets, servers });
        proof {
            assert(completes(&table, &completed) && start_outcome(
                &kept_registry,
                completed.entries@,
                wanted,
                Ok(()),
                self.state,
            ));
        }
        Ok(())
    }

    /// The servers that have a task to abort and to wait for, by their
    /// place, in rising order.
    pub fn stop(&self) -> (r: Vec<usize>)
        ensures
            r@ == (match self.state {
                State::WaitConfig => Seq::<usize>::empty(),
                State::Running(run) => running_places(run.servers@, run.servers@.len() as int),
            }),
    {
        let mut out: Vec<usize> = Vec::new();
        match &self.state {
            State::WaitConfig => {},
            State::Running(run) => {
                let mut i: usize = 0;
                while i < run.servers.len()
                    invariant
                        i <= run.servers@.len(),
                        out@ == running_places(run.servers@, i as int),
                    decreases run.servers@.len() - i,
                {
                    if run.servers[i].server.stop() {
                        out.push(i);
                    }
                    i += 1;
                }
            },
        }
        out
    }

    /// The task of the server at place `index` ended with `result`.
    pub fn server_finished(&mut self, index: usize, result: Result<(), Error>)
        requires
            old(self).wf(),
        ensures
            final(self).wf(),
            final(self).manager == old(self).manager,
            match old(self).state {
                State::Running(run) => if index < run.servers@.len() {
                    &&& final(self).state matches State::Running(now)
                    &&& now.nets == run.nets
                    &&& now.servers@.len() == run.servers@.len()
                    &&& now.servers@[index as int].server.state == (if run.servers@[index as int].server.state is Running {
                        ServerState::Finished { result }
                    } else {
                        run.servers@[index as int].server.state
                    })
                    &&& forall|i: int|
                        0 <= i < run.servers@.len() && i != index ==> now.servers@[i] == run.servers@[i]
                } else {
                    final(self).state == old(self).state
                },
                State::WaitConfig => final(self).state == old(self).state,
            },
    {
        match &mut self.state {
            State::Running(run) => {
                if index < run.servers.len() {
                    run.servers[index].server.join(result);
                }
            },
            State::WaitConfig => {},
        }
    }

    /// Everything has ended: the supervisor waits for a configuration
    /// again. Returns the servers that ended with an error, in their order,
    /// each with its error.
    pub fn join(&mut self) -> (r: Vec<ServerFailure>)
        requires
            old(self).wf(),
        ensures
            final(self).wf(),
            final(self).state is WaitConfig,
            final(self).manager == old(self).manager,
            failures_view(r@) == (match old(self).state {
                State::WaitConfig => Seq::<(Seq<char>, Error)>::empty(),
                State::Running(run) => failures_of(run.servers@, run.servers@.len() as int),
            }),
    {
        let mut out: Vec<ServerFailure> = Vec::new();
        let mut taken = State::WaitConfig;
        core::mem::swap(&mut self.state, &mut taken);
        match taken {
            State::WaitConfig => {
                assert(failures_view(out@) =~= Seq::<(Seq<char>, Error)>::empty());
            },
            State::Running(run) => {
                let ghost source = run.servers@;
                let mut servers = run.servers;
                assert(failures_view(out@) =~= failures_of(source, 0));
                while servers.len() > 0
                    invariant
                        servers@.len() <= source.len(),
                        servers@ == source.skip(source.len() - servers@.len()),
                        failures_view(out@) == failures_of(source, source.len() - servers@.len()),
                    decreases servers@.len(),
                {
                    let ghost at = source.len() - servers@.len();
                    let ghost before = failures_view(out@);
                    let info = servers.remove(0);
                    proof {
                        assert(info == source[at]);
                        assert(servers@ =~= source.skip(at + 1));
                    }
                    let ServerInfo { name, listen, net, server, config } = info;
                    let mut server = server;
                    match server.take_result() {
                        Some(Err(error)) => {
                            out.push(ServerFailure { name, error });
                            proof {
                                assert(failures_view(out@) =~= before.push((name@, error)));
                            }
                        },
                        _ => {
                            proof {
                                assert(failures_view(out@) =~= before);
                            }
                        },
                    }
                }
            },
        }
        out
    }

    /// Puts the settings `opt` in the place of those of the net `net_name`
    /// while everything keeps running.
    ///
    /// The references of the new settings are resolved against the running
    /// nets. That fails where the type of the settings is not loaded, and
    /// where a reference names no running net: the error holds the type, or
    /// the first such name, and nothing changes. Where it succeeds, the net
    /// has the new settings, fully resolved, and everything else is as it
    /// was: the nets, their names and their order. A name that is no
    /// running net changes nothing either.
    pub fn update_net(&mut self, net_name: &String, opt: NetConfig) -> (r: Result<bool, Error>)
        requires
            old(self).wf(),
        ensures
            final(self).wf(),
            final(self).manager == old(self).manager,
            match old(self).state {
                State::WaitConfig => {
                    &&& final(self).state == old(self).state
                    &&& r matches Err(Error::Other(msg))
                    &&& msg@ == "Not running"@
                },
                State::Running(run) => {
                    let p = place_of(running_names(run.nets@), net_name@);
                    let known = running_map(run.nets@);
                    let refs = opt.net_refs();
                    &&& r is Err <==> p < run.nets@.len() && !(run.registry.net.has(kind_of(opt)) && first_missing(
                        known,
                        refs,
                    ) == refs.len())
                    &&& match r {
                        Ok(changed) => {
                            &&& final(self).state matches State::Running(now)
                            &&& changed == (p < run.nets@.len())
                            &&& now.config == run.config
                            &&& now.registry == run.registry
                            &&& now.servers == run.servers
                            &&& now.nets@.len() == run.nets@.len()
                            &&& running_names(now.nets@) == running_names(run.nets@)
                            &&& forall|i: int| 0 <= i < run.nets@.len() && i != p ==> now.nets@[i] == run.nets@[i]
                            &&& changed ==> {
                                &&& opt.same_settings(&now.nets@[p].opt)
                                &&& now.nets@[p].net == run.nets@[p].net
                                &&& now.nets@[p].opt.net_refs().len() == opt.net_refs().len()
                                &&& forall|t: int|
                                    0 <= t < opt.net_refs().len() ==> (#[trigger] now.nets@[p].opt.net_refs()[t]).name
                                        == opt.net_refs()[t].name
                            }
                        },
                        Err(e) => {
                            &&& final(self).state == old(self).state
                            &&& e matches Error::NotFound(what)
                            &&& what@ == (if !run.registry.net.has(kind_of(opt)) {
                                "Net type is not loaded: "@ + kind_of(opt)
                            } else {
                                refs[first_missing(known, refs)].name
                            })
                        },
                    }
                },
            },
    {
        match &mut self.state {
            State::WaitConfig => Err(Error::Other("Not running".to_string())),
            State::Running(run) => {
                let p = match find_running(&run.nets, net_name) {
                    Some(p) => p,
                    None => {
                        return Ok(false);
                    },
                };
                let map = net_map_of(&run.nets);
                let ghost refs = opt.net_refs();
                let ghost nets0 = run.nets@;
                let handle = run.nets[p].net;
                let kind = opt.kind();
                let net = crate::config::Net::new_opt(kind, opt);
                let built = match build_net(net_name.clone(), net, &run.registry, &map, handle) {
                    Ok(built) => built,
                    Err(e) => {
                        return Err(e);
                    },
                };
                run.nets[p].update_net(built.opt);
                proof {
                    let now = run.nets@;
                    assert(running_names(now) =~= running_names(nets0));
                    assert forall|k: int, t: int| 0 <= k < now.len() && 0 <= t < now[k].opt.net_refs().len() implies is_running_net(
                        now,
                        #[trigger] now[k].opt.net_refs()[t],
                    ) by {
                        if k == p {
                            let r = now[k].opt.net_refs()[t];
                            crate::visitor::lemma_first_missing(map@, refs);
                            assert(map@.contains_key(refs[t].name));
                            let q = place_of(running_names(nets0), refs[t].name);
                            lemma_place_of(running_names(nets0), refs[t].name);
                            assert(nets0[q].net.id == q);
                            assert(running_names(nets0)[q] == refs[t].name);
                            assert(running_names(now)[q] == now[q].name@);
                        } else {
                            assert(now[k] == nets0[k]);
                            assert(is_running_net(nets0, nets0[k].opt.net_refs()[t]));
                            let h = nets0[k].opt.net_refs()[t].net->0;
                            assert(running_names(now)[h.id as int] == running_names(nets0)[h.id as int]);
                        }
                    }
                }
                Ok(true)
            },
        }
    }

    /// Tells the flow `uuid` to stop, and says whether there is such a flow.
    pub fn stop_connection(&mut self, uuid: u128) -> (r: Result<bool, Error>)
        requires
            old(self).wf(),
        ensures
            final(self).wf(),
            final(self).state == old(self).state,
            r matches Ok(found) && found == old(self).manager@.contains_key(uuid),
            final(self).manager@ == (if old(self).manager@.contains_key(uuid) {
                old(self).manager@.insert(uuid, ConnectionView { stopped: true, ..old(self).manager@[uuid] })
            } else {
                old(self).manager@
            }),
    {
        Ok(self.manager.stop_connection(uuid))
    }
}

} // verus!
