use rabbit_digger::address::Address;
use rabbit_digger::builtin::alias::AliasNetConfig;
use rabbit_digger::builtin::load_builtin;
use rabbit_digger::builtin::net_config::NetConfig;
use rabbit_digger::config::{Config, Net, Server};
use rabbit_digger::context::Context;
use rabbit_digger::error::Error;
use rabbit_digger::net_ref::{NetHandle, NetRef};
use rabbit_digger::plugin::ServerPlan;
use rabbit_digger::rabbit_digger::connection_manager::{ConnectionManager, Protocol, BATCH_SIZE, IDLE_SLEEP_MS};
use rabbit_digger::rabbit_digger::event::{closed, inbound, outbound, Event, EventType};
use rabbit_digger::rabbit_digger::running::{
    build_server, RunningServer, RunningServerNet, ServerState, StartAction, WrapTcpStream,
};
use rabbit_digger::rabbit_digger::stream::{StartStream, StreamAction, StreamEvent, StreamState, FIRST_CONFIG_TIMEOUT_SECS};
use rabbit_digger::rabbit_digger::{RabbitDigger, RabbitDiggerBuilder, State};
use rabbit_digger::registry::Registry;
use rabbit_digger::visitor::EmptyConfig;

fn registry() -> Registry {
    let mut r = Registry::new();
    load_builtin(&mut r);
    r
}

fn alias(target: &str) -> Net {
    Net::new_opt("alias".to_string(), NetConfig::Alias(AliasNetConfig { net: NetRef::new(target.to_string()) }))
}

fn server(kind: &str, listen: &str, net: &str) -> Server {
    Server {
        server_type: kind.to_string(),
        listen: listen.to_string(),
        net: net.to_string(),
        rest: serde_json::Value::Null,
    }
}

fn config() -> Config {
    let mut config = Config::new();
    config.net.insert("out".to_string(), alias("local"));
    config.net.insert("other".to_string(), alias("noop"));
    config.server.insert("in".to_string(), server("forward", "local", "out"));
    config
}

fn new_tcp(uuid: u128, addr: &str, time: u64) -> Event {
    Event::new(uuid, EventType::NewTcp(Address::parse(addr).unwrap(), vec!["rule".to_string(), "local".to_string()]), time)
}

#[test]
fn flows_are_accounted() {
    let mut manager = ConnectionManager::new();
    manager.input_events(vec![
        new_tcp(1, "example.com:443", 100),
        inbound(1, 10, 110, 101),
        outbound(1, 7, 102),
        inbound(2, 0, 5, 103),
        Event::new(2, EventType::NewUdp(Address::parse("0.0.0.0:0").unwrap(), Vec::new()), 104),
        inbound(1, 0, 1, 105),
    ]);
    let state = manager.borrow_state();
    assert_eq!(state.len(), 2);
    let one = state.iter().find(|c| c.uuid == 1).unwrap();
    assert_eq!(one.protocol, Protocol::Tcp);
    assert!(one.addr.same(&Address::Domain("example.com".to_string(), 443)));
    assert_eq!(one.start_time, 100);
    assert_eq!(one.download, 101);
    assert_eq!(one.upload, 7);
    assert_eq!(one.net_chain, vec!["rule".to_string(), "local".to_string()]);
    assert!(!one.stopped);
    let two = state.iter().find(|c| c.uuid == 2).unwrap();
    assert_eq!(two.protocol, Protocol::Udp);
    assert_eq!(two.download, 0);
    manager.input_event(closed(1, 200));
    assert_eq!(manager.len(), 1);
    manager.input_event(closed(1, 201));
    manager.input_event(outbound(1, 7, 202));
    assert_eq!(manager.len(), 1);
    assert_eq!(BATCH_SIZE, 16);
    assert_eq!(IDLE_SLEEP_MS, 100);
}

#[test]
fn counters_stop_at_the_top() {
    let mut manager = ConnectionManager::new();
    manager.input_event(new_tcp(1, "example.com:443", 0));
    manager.input_event(outbound(1, usize::MAX, 1));
    manager.input_event(outbound(1, usize::MAX, 2));
    manager.input_event(outbound(1, 5, 3));
    assert_eq!(manager.borrow_state()[0].upload, u64::MAX);
    // a read that left less than there was counts as nothing
    manager.input_event(inbound(1, 10, 5, 4));
    assert_eq!(manager.borrow_state()[0].download, 0);
}

#[test]
fn stopping_a_flow() {
    let mut rd = RabbitDiggerBuilder::new().build();
    rd.manager.input_event(new_tcp(42, "127.0.0.1:4321", 0));
    assert!(!rd.stop_connection(41).unwrap());
    assert!(rd.stop_connection(42).unwrap());
    assert!(rd.connection()[0].stopped);
    assert_eq!(rd.connection().len(), 1);
    // the flow ends, and reports it
    rd.manager.input_event(WrapTcpStream::new(42).closed(1));
    assert_eq!(rd.connection().len(), 0);
    assert!(!rd.stop_connection(42).unwrap());
}

#[test]
fn streams_report_what_they_carry() {
    let stream = WrapTcpStream::new(3);
    let mut manager = ConnectionManager::new();
    let mut ctx = Context::new();
    ctx.append_net(&"rule".to_string());
    let net = RunningServerNet::new(NetHandle { id: 1 });
    manager.input_event(net.tcp_connected(3, &ctx, &Address::parse("1.2.3.4:5").unwrap(), 9));
    manager.input_event(stream.poll_read(4, 10, 10));
    manager.input_event(stream.poll_write(3, 11));
    let c = &manager.borrow_state()[0];
    assert_eq!((c.uuid, c.download, c.upload, c.start_time), (3, 6, 3, 9));
    assert_eq!(c.net_chain, vec!["rule".to_string()]);
}

#[test]
fn supervisor_starts_and_stops() {
    let mut rd = RabbitDigger::new();
    assert_eq!(rd.state_str(), "WaitConfig");
    assert!(!rd.is_running());
    match rd.config() {
        Err(Error::Other(msg)) => assert_eq!(msg, "Not running"),
        _ => panic!("nothing runs"),
    }
    assert!(rd.stop().is_empty());
    rd.start(config(), registry()).unwrap();
    assert_eq!(rd.state_str(), "Running");
    assert!(rd.is_running());
    assert_eq!(rd.config().unwrap().server.len(), 1);
    match &rd.state {
        State::Running(run) => {
            assert_eq!(run.nets.len(), 4);
            assert_eq!(run.servers.len(), 1);
            let info = &run.servers[0];
            assert_eq!(info.describe(), "in: local -> out");
            let listen = run.nets.iter().find(|n| n.name == "local").unwrap().net;
            let out = run.nets.iter().find(|n| n.name == "out").unwrap().net;
            assert_eq!((info.server.listen, info.server.net), (listen, out));
        }
        State::WaitConfig => panic!("something runs"),
    }
    // a second start is refused and changes nothing
    assert!(rd.start(config(), registry()).is_err());
    assert!(rd.is_running());
    // no task runs yet: nothing to abort
    assert!(rd.stop().is_empty());
    if let State::Running(run) = &mut rd.state {
        let action = run.servers[0].server.start(&run.registry, &serde_json::Value::Null).unwrap();
        assert!(matches!(action, StartAction::Spawn(_)));
    }
    assert_eq!(rd.stop(), vec![0]);
    rd.server_finished(0, Err(Error::AbortedByUser));
    assert!(rd.stop().is_empty());
    let failures = rd.join();
    assert_eq!(failures.len(), 1);
    assert_eq!(failures[0].name, "in");
    assert!(failures[0].error.is_aborted());
    assert!(!rd.is_running());
    rd.start(config(), registry()).unwrap();
    assert!(rd.join().is_empty());
}

#[test]
fn start_fails_and_leaves_the_supervisor_waiting() {
    let mut rd = RabbitDigger::new();
    let mut broken = config();
    broken.net.insert("loop".to_string(), alias("loop"));
    assert!(matches!(rd.start(broken, registry()), Err(Error::Cycle(_))));
    assert!(!rd.is_running());
    let mut broken = config();
    broken.server.insert("lost".to_string(), server("forward", "local", "nowhere"));
    match rd.start(broken, registry()) {
        Err(Error::WithContext(w)) => {
            assert_eq!(w.context, "Loading server lost");
            assert!(matches!(*w.error, Error::NotFound(ref name) if name == "nowhere"));
        },
        other => panic!("{:?}", other),
    }
    let mut broken = config();
    broken.server.insert("lost".to_string(), server("forward", "nowhere", "elsewhere"));
    match rd.start(broken, registry()) {
        Err(Error::WithContext(w)) => {
            assert_eq!(w.context, "Loading server lost");
            assert!(matches!(*w.error, Error::NotFound(ref name) if name == "nowhere"));
        },
        other => panic!("{:?}", other),
    }
    let mut broken = config();
    broken.net.insert("far".to_string(), alias("nowhere"));
    match rd.start(broken, registry()) {
        Err(Error::WithContext(w)) => {
            assert_eq!(w.context, "Loading net far");
            assert!(matches!(*w.error, Error::NotFound(ref name) if name == "nowhere"));
        },
        other => panic!("{:?}", other),
    }
    let mut running = RabbitDigger::new();
    running.start(config(), registry()).unwrap();
    match running.start(config(), registry()) {
        Err(Error::Other(msg)) => assert_eq!(msg, "Already running"),
        other => panic!("{:?}", other),
    }
    assert!(running.is_running());
    assert!(!rd.is_running());
    rd.start(config(), registry()).unwrap();
}

#[test]
fn a_net_is_swapped_while_the_rest_stays() {
    let mut rd = RabbitDigger::new();
    match rd.update_net(&"out".to_string(), NetConfig::Noop(EmptyConfig {})) {
        Err(Error::Other(msg)) => assert_eq!(msg, "Not running"),
        other => panic!("{:?}", other),
    }
    rd.start(config(), registry()).unwrap();
    let names = |rd: &RabbitDigger| match &rd.state {
        State::Running(run) => run.nets.iter().map(|n| (n.name.clone(), n.net)).collect::<Vec<_>>(),
        State::WaitConfig => Vec::new(),
    };
    let target = |rd: &RabbitDigger, name: &str| match &rd.state {
        State::Running(run) => match &run.nets.iter().find(|n| n.name == name).unwrap().opt {
            NetConfig::Alias(c) => c.net.clone(),
            other => panic!("{:?}", other),
        },
        State::WaitConfig => panic!("something runs"),
    };
    let before = names(&rd);
    let noop = before.iter().find(|n| n.0 == "noop").unwrap().1;
    assert_eq!(target(&rd, "out").name, "local");
    let swapped =
        rd.update_net(&"out".to_string(), NetConfig::Alias(AliasNetConfig { net: NetRef::new("noop".to_string()) }));
    assert!(swapped.unwrap());
    assert_eq!(names(&rd), before);
    assert_eq!(target(&rd, "out").name, "noop");
    assert_eq!(target(&rd, "out").value(), Some(noop));
    assert_eq!(target(&rd, "other").name, "noop");
    // a swap that cannot be resolved changes nothing
    let failed =
        rd.update_net(&"out".to_string(), NetConfig::Alias(AliasNetConfig { net: NetRef::new("nowhere".to_string()) }));
    match failed {
        Err(Error::NotFound(name)) => assert_eq!(name, "nowhere"),
        other => panic!("{:?}", other),
    }
    assert_eq!(names(&rd), before);
    assert_eq!(target(&rd, "out").name, "noop");
    assert_eq!(target(&rd, "out").value(), Some(noop));
    // a name that is no net changes nothing
    assert!(!rd.update_net(&"nowhere".to_string(), NetConfig::Noop(EmptyConfig {})).unwrap());
    assert_eq!(names(&rd), before);
}

#[test]
fn a_server_runs_and_ends() {
    let r = registry();
    let one = serde_json::from_str::<serde_json::Value>("{\"bind\": \"127.0.0.1:1234\"}").unwrap();
    let two = serde_json::from_str::<serde_json::Value>("{\"bind\": \"127.0.0.1:4321\"}").unwrap();
    let mut server = RunningServer::new("in".to_string(), "forward".to_string(), NetHandle { id: 1 }, NetHandle { id: 0 });
    assert!(!server.stop());
    assert!(server.take_result().is_none());
    match server.start(&r, &one).unwrap() {
        StartAction::Spawn(ServerPlan { server_type, listen, net, opt }) => {
            assert_eq!(server_type, "forward");
            assert_eq!((listen, net), (NetHandle { id: 0 }, NetHandle { id: 1 }));
            assert_eq!(opt, one);
        }
        other => panic!("{:?}", other),
    }
    assert!(server.is_running());
    assert!(matches!(server.start(&r, &one).unwrap(), StartAction::Skip));
    assert!(matches!(server.start(&r, &two).unwrap(), StartAction::StopFirst));
    assert!(server.stop());
    server.join(Ok(()));
    assert!(matches!(server.state, ServerState::Finished { result: Ok(()) }));
    server.join(Err(Error::AbortedByUser));
    assert!(matches!(server.state, ServerState::Finished { result: Ok(()) }));
    assert!(matches!(server.start(&r, &two).unwrap(), StartAction::Spawn(_)));
    server.join(Err(Error::NotEnabled));
    assert!(matches!(server.take_result(), Some(Err(Error::NotEnabled))));
    assert!(matches!(server.state, ServerState::WaitConfig));
    assert!(server.take_result().is_none());
    let mut unknown = RunningServer::new("in".to_string(), "shadow".to_string(), NetHandle { id: 1 }, NetHandle { id: 0 });
    assert!(matches!(unknown.start(&r, &one), Err(Error::NotFound(_))));
    assert!(matches!(unknown.state, ServerState::WaitConfig));
    assert!(build_server(&Vec::new(), &Config::new().server).unwrap().is_empty());
}

#[test]
fn running_from_a_stream() {
    assert_eq!(FIRST_CONFIG_TIMEOUT_SECS, 10);
    let mut s = StartStream::new();
    match s.on_event(StreamEvent::Timeout) {
        StreamAction::Exit(Err(Error::Other(msg))) => assert_eq!(msg, "The config_stream is empty, can not start."),
        other => panic!("{:?}", other),
    }
    assert_eq!(s.state, StreamState::Finished);
    assert!(matches!(s.on_event(StreamEvent::Config(Config::new())), StreamAction::Wait));

    let mut s = StartStream::new();
    assert!(matches!(s.on_event(StreamEvent::StreamEnded), StreamAction::Exit(Err(Error::Other(_)))));

    let mut s = StartStream::new();
    match s.on_event(StreamEvent::StreamFailed(Error::NotEnabled)) {
        StreamAction::Exit(Err(Error::WithContext(w))) => {
            assert_eq!(w.context, "Failed to get first config.");
            assert!(matches!(*w.error, Error::NotEnabled));
        }
        other => panic!("{:?}", other),
    }

    let mut s = StartStream::new();
    assert!(matches!(s.on_event(StreamEvent::Config(Config::new())), StreamAction::Start(_)));
    assert_eq!(s.state, StreamState::Serving);
    assert!(matches!(s.on_event(StreamEvent::Timeout), StreamAction::Wait));
    assert!(matches!(s.on_event(StreamEvent::Config(Config::new())), StreamAction::Restart(_)));
    // a server error is no reason to leave
    assert!(matches!(s.on_event(StreamEvent::Joined(Err(Error::AbortedByUser))), StreamAction::Wait));
    assert_eq!(s.state, StreamState::Idle);
    assert!(matches!(s.on_event(StreamEvent::Config(Config::new())), StreamAction::Restart(_)));
    assert_eq!(s.state, StreamState::Serving);
    assert!(matches!(s.on_event(StreamEvent::Joined(Ok(()))), StreamAction::Wait));
    assert!(matches!(s.on_event(StreamEvent::StreamEnded), StreamAction::Exit(Ok(()))));
    assert_eq!(s.state, StreamState::Finished);

    let mut s = StartStream::new();
    let _ = s.on_event(StreamEvent::Config(Config::new()));
    assert!(matches!(s.on_event(StreamEvent::StartFailed(Error::NotEnabled)), StreamAction::Exit(Err(Error::NotEnabled))));
    let mut s = StartStream::new();
    let _ = s.on_event(StreamEvent::Config(Config::new()));
    assert!(matches!(s.on_event(StreamEvent::StreamFailed(Error::NotEnabled)), StreamAction::Exit(Err(Error::NotEnabled))));
}

#[test]
fn a_swap_to_a_type_that_is_not_loaded_fails() {
    let mut plugin = rabbit_digger::plugin::Registry::new();
    for kind in ["local", "noop", "alias"] {
        plugin.add_net(kind.to_string());
    }
    plugin.add_server("forward".to_string());
    let mut small = Registry::new();
    small.add_registry("few".to_string(), plugin);
    let mut rd = RabbitDigger::new();
    rd.start(config(), small).unwrap();
    let combine = rabbit_digger::builtin::combine::CombineNetConfig {
        tcp_connect: NetRef::new("nowhere".to_string()),
        tcp_bind: NetRef::new("local".to_string()),
        udp_bind: NetRef::new("local".to_string()),
    };
    // the type is looked at before the references
    match rd.update_net(&"out".to_string(), NetConfig::Combine(combine)) {
        Err(Error::NotFound(msg)) => assert_eq!(msg, "Net type is not loaded: combine"),
        other => panic!("{:?}", other),
    }
    // of two names that are no nets the first is told
    let alias_to = |name: &str| NetConfig::Alias(AliasNetConfig { net: NetRef::new(name.to_string()) });
    match rd.update_net(&"out".to_string(), alias_to("lost")) {
        Err(Error::NotFound(name)) => assert_eq!(name, "lost"),
        other => panic!("{:?}", other),
    }
    // a name that is no net is no failure, whatever the settings are
    assert!(!rd.update_net(&"absent".to_string(), alias_to("lost")).unwrap());
    assert!(rd.update_net(&"out".to_string(), alias_to("other")).unwrap());
}
