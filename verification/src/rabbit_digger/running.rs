//! The nets and servers of the running graph.

use crate::address::Address;
use crate::builtin::net_config::NetConfig;
use crate::config::{ConfigServer, Server};
use crate::context::{clone_names, Context, ContextView};
use crate::error::{Error, ErrorWithContext};
use crate::lru::{lemma_place_of, place_of};
use crate::name_table::Named;
use crate::net_ref::NetHandle;
use crate::plugin::ServerPlan;
use crate::rabbit_digger::builder::RunningNet;
use crate::rabbit_digger::event::{Event, EventType, EventTypeView, EventView};
use crate::registry::Registry;
use crate::visitor::names_of;
use vstd::prelude::*;

verus! {

impl RunningNet {
    pub fn new(name: String, opt: NetConfig, net: NetHandle) -> (r: RunningNet)
        ensures
            r.name == name,
            r.opt == opt,
            r.net == net,
    {
        RunningNet { name, opt, net }
    }

    /// The handle under which the net itself is kept.
    pub fn net(&self) -> (r: NetHandle)
        ensures
            r == self.net,
    {
        self.net
    }

    /// A flow enters the net: the name of the net goes onto the chain of the
    /// flow, and the operation is handed to the net itself.
    pub fn enter(&self, ctx: &mut Context) -> (r: NetHandle)
        ensures
            r == self.net,
            final(ctx)@ == (ContextView { net_list: old(ctx)@.net_list.push(self.name@), ..old(ctx)@ }),
    {
        ctx.append_net(&self.name);
        self.net
    }

    /// Puts new settings in the place of the old ones; the name and the
    /// handle stay.
    pub fn update_net(&mut self, opt: NetConfig)
        ensures
            final(self).opt == opt,
            final(self).name == old(self).name,
            final(self).net == old(self).net,
    {
        self.opt = opt;
    }
}

/// The net that the flows of a server go out through: it reports each new
/// connection to the accounting.
#[derive(Clone, Copy, Debug, PartialEq, Eq, Structural)]
pub struct RunningServerNet {
    pub net: NetHandle,
}

impl RunningServerNet {
    pub fn new(net: NetHandle) -> (r: RunningServerNet)
        ensures
            r.net == net,
    {
        RunningServerNet { net }
    }

    /// The report of a connection to `addr` that was opened for the flow
    /// with context `ctx`, under the identifier `uuid`.
    pub fn tcp_connected(&self, uuid: u128, ctx: &Context, addr: &Address, time: u64) -> (r: Event)
        ensures
            r@ == (EventView { uuid, event_type: EventTypeView::NewTcp(addr@, ctx@.net_list), time }),
    {
        Event { uuid, event_type: EventType::NewTcp(addr.clone(), clone_names(ctx.net_list())), time }
    }
}

/// A stream whose reads and writes are counted.
#[derive(Clone, Copy, Debug, PartialEq, Eq, Structural)]
pub struct WrapTcpStream {
    pub uuid: u128,
}

impl WrapTcpStream {
    pub fn new(uuid: u128) -> (r: WrapTcpStream)
        ensures
            r.uuid == uuid,
    {
        WrapTcpStream { uuid }
    }

    /// The report of a read that left `after` bytes in a buffer that held `before`.
    pub fn poll_read(&self, before: usize, after: usize, time: u64) -> (r: Event)
        requires
            before <= after,
        ensures
            r@ == (EventView { uuid: self.uuid, event_type: EventTypeView::Inbound((after - before) as usize), time }),
    {
        Event { uuid: self.uuid, event_type: EventType::Inbound(after - before), time }
    }

    /// The report of a write of `written` bytes.
    pub fn poll_write(&self, written: usize, time: u64) -> (r: Event)
        ensures
            r@ == (EventView { uuid: self.uuid, event_type: EventTypeView::Outbound(written), time }),
    {
        Event { uuid: self.uuid, event_type: EventType::Outbound(written), time }
    }

    /// The report that the stream is gone.
    pub fn closed(&self, time: u64) -> (r: Event)
        ensures
            r@ == (EventView { uuid: self.uuid, event_type: EventTypeView::Closed, time }),
    {
        Event { uuid: self.uuid, event_type: EventType::Closed, time }
    }
}

/// Where a server stands.
#[derive(Debug)]
pub enum ServerState {
    /// It was never started, or its result was taken.
    WaitConfig,
    /// It runs with these settings.
    Running { opt: serde_json::Value },
    /// It ended with this result, which nobody took yet.
    Finished { result: Result<(), Error> },
}

/// What to do to start a server.
#[derive(Debug)]
pub enum StartAction {
    /// Nothing: the server runs with the same settings.
    Skip,
    /// Stop the server and wait for it, then ask again.
    StopFirst,
    /// Build the server from the plan and run it.
    Spawn(ServerPlan),
}

/// A server of the running graph.
#[derive(Debug)]
pub struct RunningServer {
    pub name: String,
    pub server_type: String,
    pub net: NetHandle,
    pub listen: NetHandle,
    pub state: ServerState,
}

impl RunningServer {
    pub fn new(name: String, server_type: String, net: NetHandle, listen: NetHandle) -> (r: RunningServer)
        ensures
            r.name == name,
            r.server_type == server_type,
            r.net == net,
            r.listen == listen,
            r.state is WaitConfig,
    {
        RunningServer { name, server_type, net, listen, state: ServerState::WaitConfig }
    }

    /// Whether the server runs.
    pub fn is_running(&self) -> (r: bool)
        ensures
            r == (self.state is Running),
    {
        matches!(self.state, ServerState::Running { .. })
    }

    /// Starts the server with the settings `opt`.
    ///
    /// A server that runs with the same settings is left alone. One that
    /// runs with other settings has to be stopped first. Otherwise the
    /// server is looked up in the registry; if its type is loaded, the
    /// server counts as running from now on, and the plan for it is returned.
    pub fn start(&mut self, registry: &Registry, opt: &serde_json::Value) -> (r: Result<StartAction, Error>)
        ensures
            final(self).name == old(self).name,
            final(self).server_type == old(self).server_type,
            final(self).net == old(self).net,
            final(self).listen == old(self).listen,
            match old(self).state {
                ServerState::Running { opt: running_opt } => {
                    &&& final(self).state == old(self).state
                    &&& r matches Ok(a)
                    &&& if running_opt == *opt {
                        a is Skip
                    } else {
                        a is StopFirst
                    }
                },
                _ => if registry.server.has(old(self).server_type@) {
                    &&& final(self).state == (ServerState::Running { opt: *opt })
                    &&& r matches Ok(StartAction::Spawn(plan))
                    &&& plan.server_type@ == old(self).server_type@
                    &&& plan.listen == old(self).listen
                    &&& plan.net == old(self).net
                    &&& plan.opt == *opt
                } else {
                    &&& final(self).state == old(self).state
                    &&& r matches Err(Error::NotFound(_))
                },
            },
    {
        if let ServerState::Running { opt: running_opt } = &self.state {
            if *opt == *running_opt {
                return Ok(StartAction::Skip);
            }
            return Ok(StartAction::StopFirst);
        }
        let item = match registry.get_server(&self.server_type) {
            Ok(item) => item,
            Err(e) => {
                return Err(e);
            },
        };
        let plan = match item.build(self.server_type.clone(), self.listen, self.net, opt.clone()) {
            Ok(plan) => plan,
            Err(e) => {
                return Err(e);
            },
        };
        self.state = ServerState::Running { opt: opt.clone() };
        Ok(StartAction::Spawn(plan))
    }

    /// Whether there is a running task to abort and to wait for.
    pub fn stop(&self) -> (r: bool)
        ensures
            r == (self.state is Running),
    {
        self.is_running()
    }

    /// The task of the server ended with `result`. A server that did not
    /// run is left as it is.
    pub fn join(&mut self, result: Result<(), Error>)
        ensures
            final(self).name == old(self).name,
            final(self).server_type == old(self).server_type,
            final(self).net == old(self).net,
            final(self).listen == old(self).listen,
            final(self).state == (if old(self).state is Running {
                ServerState::Finished { result }
            } else {
                old(self).state
            }),
    {
        if self.is_running() {
            self.state = ServerState::Finished { result };
        }
    }

    /// Takes the result of a server that ended; the server can then be
    /// started again.
    pub fn take_result(&mut self) -> (r: Option<Result<(), Error>>)
        ensures
            final(self).name == old(self).name,
            final(self).server_type == old(self).server_type,
            final(self).net == old(self).net,
            final(self).listen == old(self).listen,
            match old(self).state {
                ServerState::Finished { result } => r == Some(result) && final(self).state is WaitConfig,
                _ => r is None && final(self).state == old(self).state,
            },
    {
        if !matches!(self.state, ServerState::Finished { .. }) {
            return None;
        }
        let mut taken = ServerState::WaitConfig;
        core::mem::swap(&mut self.state, &mut taken);
        match taken {
            ServerState::Finished { result } => Some(result),
            _ => None,
        }
    }
}

/// A server with the names that it was configured with.
#[derive(Debug)]
pub struct ServerInfo {
    pub name: String,
    pub listen: String,
    pub net: String,
    pub server: RunningServer,
    pub config: serde_json::Value,
}

impl ServerInfo {
    /// The server in one line: its name, and from where to where it leads.
    pub fn describe(&self) -> (r: String)
        ensures
            r@ == self.name@ + ": "@ + self.listen@ + " -> "@ + self.net@,
    {
        self.name.clone().concat(": ").concat(self.listen.as_str()).concat(" -> ").concat(self.net.as_str())
    }
}

/// The names of the running nets.
pub open spec fn running_names(nets: Seq<RunningNet>) -> Seq<Seq<char>> {
    Seq::new(nets.len(), |i: int| nets[i].name@)
}

/// The running net called `name`, if there is one: the first of that name.
pub fn find_running(nets: &Vec<RunningNet>, name: &String) -> (r: Option<usize>)
    ensures
        match r {
            Some(p) => p == place_of(running_names(nets@), name@) && p < nets@.len() && nets@[p as int].name@ == name@,
            None => place_of(running_names(nets@), name@) == nets@.len(),
        },
{
    proof {
        lemma_place_of(running_names(nets@), name@);
    }
    let mut i: usize = 0;
    while i < nets.len()
        invariant
            i <= nets@.len(),
            forall|j: int| 0 <= j < i ==> running_names(nets@)[j] != name@,
            0 <= place_of(running_names(nets@), name@) <= nets@.len(),
            forall|j: int| 0 <= j < place_of(running_names(nets@), name@) ==> running_names(nets@)[j] != name@,
            place_of(running_names(nets@), name@) < nets@.len() ==> running_names(nets@)[place_of(
                running_names(nets@),
                name@,
            )] == name@,
        decreases nets@.len() - i,
    {
        if nets[i].name == *name {
            assert(running_names(nets@)[i as int] == name@);
            return Some(i);
        }
        i += 1;
    }
    None
}

/// Whether the nets that the server names are running.
pub open spec fn is_served(nets: Seq<RunningNet>, server: Server) -> bool {
    place_of(running_names(nets), server.listen@) < nets.len() && place_of(running_names(nets), server.net@) < nets.len()
}

/// The name that keeps the server from being built: the net that it
/// listens through where that is not running, else the net that its flows
/// go to.
pub open spec fn missing_net(nets: Seq<RunningNet>, server: Server) -> Seq<char> {
    if place_of(running_names(nets), server.listen@) < nets.len() {
        server.net@
    } else {
        server.listen@
    }
}

/// The first server that names a net that is not running, or the number of
/// servers.
pub open spec fn first_unserved(nets: Seq<RunningNet>, servers: Seq<Named<Server>>) -> int
    decreases servers.len(),
{
    if servers.len() == 0 {
        0
    } else if !is_served(nets, servers[0].value) {
        0
    } else {
        1 + first_unserved(nets, servers.skip(1))
    }
}

/// `first_unserved` is the place of the first server that names a net that
/// is not running.
pub proof fn lemma_first_unserved(nets: Seq<RunningNet>, servers: Seq<Named<Server>>)
    ensures
        0 <= first_unserved(nets, servers) <= servers.len(),
        forall|s: int| 0 <= s < first_unserved(nets, servers) ==> is_served(nets, (#[trigger] servers[s]).value),
        first_unserved(nets, servers) < servers.len() ==> !is_served(nets, servers[first_unserved(nets, servers)].value),
    decreases servers.len(),
{
    if servers.len() > 0 && is_served(nets, servers[0].value) {
        let rest = servers.skip(1);
        lemma_first_unserved(nets, rest);
        assert forall|s: int| 0 <= s < first_unserved(nets, servers) implies is_served(
            nets,
            (#[trigger] servers[s]).value,
        ) by {
            if s > 0 {
                assert(servers[s] == rest[s - 1]);
            }
        }
        if first_unserved(nets, servers) < servers.len() {
            assert(servers[first_unserved(nets, servers)] == rest[first_unserved(nets, rest)]);
        }
    }
}

/// The server info is what the configured server makes with the running nets.
pub open spec fn serves(info: ServerInfo, source: Named<Server>, nets: Seq<RunningNet>) -> bool {
    &&& info.name@ == source.name@
    &&& info.listen@ == source.value.listen@
    &&& info.net@ == source.value.net@
    &&& info.config == source.value.rest
    &&& info.server.name@ == source.name@
    &&& info.server.server_type@ == source.value.server_type@
    &&& info.server.state is WaitConfig
    &&& info.server.listen == nets[place_of(running_names(nets), source.value.listen@)].net
    &&& info.server.net == nets[place_of(running_names(nets), source.value.net@)].net
}

/// The error tells the first server that names a net that is not running:
/// it holds the name of the server in front of the name of the net.
pub open spec fn is_server_failure(nets: Seq<RunningNet>, servers: Seq<Named<Server>>, e: Error) -> bool {
    let k = first_unserved(nets, servers);
    &&& 0 <= k < servers.len()
    &&& e matches Error::WithContext(w)
    &&& w.context@ == "Loading server "@ + servers[k].name@
    &&& *w.error matches Error::NotFound(name)
    &&& name@ == missing_net(nets, servers[k].value)
}

/// Puts the servers of a configuration together with the running nets that
/// they name. Fails at the first server that names a net that is not
/// running, with the name of the server in front of the name of the net.
pub fn build_server(net: &Vec<RunningNet>, config: &ConfigServer) -> (r: Result<Vec<ServerInfo>, Error>)
    ensures
        match r {
            Ok(servers) => {
                &&& first_unserved(net@, config.entries@) == config.entries@.len()
                &&& servers@.len() == config.entries@.len()
                &&& forall|i: int|
                    0 <= i < servers@.len() ==> serves(#[trigger] servers@[i], config.entries@[i], net@)
            },
            Err(e) => is_server_failure(net@, config.entries@, e),
        },
{
    let mut servers: Vec<ServerInfo> = Vec::new();
    let n = config.entries.len();
    let mut i: usize = 0;
    assert(config.entries@.skip(0) =~= config.entries@);
    while i < n
        invariant
            i <= n,
            n == config.entries@.len(),
            servers@.len() == i,
            first_unserved(net@, config.entries@) == i + first_unserved(net@, config.entries@.skip(i as int)),
            forall|j: int| 0 <= j < i ==> serves(#[trigger] servers@[j], config.entries@[j], net@),
        decreases n - i,
    {
        let entry = &config.entries[i];
        proof {
            let rest = config.entries@.skip(i as int);
            assert(rest[0] == config.entries@[i as int]);
            assert(rest.skip(1) =~= config.entries@.skip(i + 1));
        }
        let listen = match find_running(net, &entry.value.listen) {
            Some(p) => net[p].net,
            None => {
                return Err(
                    Error::WithContext(
                        ErrorWithContext::new(
                            "Loading server ".to_string().concat(entry.name.as_str()),
                            Error::NotFound(entry.value.listen.clone()),
                        ),
                    ),
                );
            },
        };
        let target = match find_running(net, &entry.value.net) {
            Some(p) => net[p].net,
            None => {
                return Err(
                    Error::WithContext(
                        ErrorWithContext::new(
                            "Loading server ".to_string().concat(entry.name.as_str()),
                            Error::NotFound(entry.value.net.clone()),
                        ),
                    ),
                );
            },
        };
        let out = RunningServerNet::new(target);
        let server = RunningServer::new(entry.name.clone(), entry.value.server_type.clone(), out.net, listen);
        servers.push(
            ServerInfo {
                name: entry.name.clone(),
                server,
                config: entry.value.rest.clone(),
                listen: entry.value.listen.clone(),
                net: entry.value.net.clone(),
            },
        );
        i += 1;
    }
    proof {
        assert(config.entries@.skip(n as int).len() == 0);
    }
    Ok(servers)
}

} // verus!
