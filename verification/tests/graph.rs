use rabbit_digger::builtin::alias::{AliasNet, AliasNetConfig};
use rabbit_digger::builtin::combine::{CombineNet, CombineNetConfig, NetOperation};
use rabbit_digger::builtin::load_builtin;
use rabbit_digger::builtin::net_config::NetConfig;
use rabbit_digger::config::{local_chain, local_string, plugins, rule, AllNet, Chain, CompositeName, CompositeRule, CompositeRuleItem, Composite, Net};
use rabbit_digger::error::Error;
use rabbit_digger::graph::topological_sort;
use rabbit_digger::name_table::NameTable;
use rabbit_digger::net_ref::{NetHandle, NetMap, NetRef};
use rabbit_digger::rabbit_digger::builder::{build_nets, with_defaults, RunningNet};
use rabbit_digger::registry::Registry;
use rabbit_digger::sniffer::config::DNSNetConfig;
use rabbit_digger::visitor::{count_unresolved_refs, get_dependency, resolve_net, EmptyConfig};

fn alias(target: &str) -> Net {
    Net::new_opt("alias".to_string(), NetConfig::Alias(AliasNetConfig { net: NetRef::new(target.to_string()) }))
}

fn registry() -> Registry {
    let mut r = Registry::new();
    load_builtin(&mut r);
    r
}

fn position(nets: &[RunningNet], name: &str) -> usize {
    nets.iter().position(|n| n.name == name).unwrap()
}

#[test]
fn test_net_ref() {
    let mut test: Vec<NetRef> = vec![NetRef::new("test".to_string())];
    assert_eq!(test[0].name(), "test");

    let mut net_map = NetMap::new();
    let noop = NetHandle { id: 7 };
    net_map.insert("test".to_string(), noop);
    resolve_net(&mut test, &net_map).unwrap();

    assert_eq!(test[0].net(), noop);
}

#[test]
fn resolve_stops_at_the_first_missing_name() {
    let mut net_map = NetMap::new();
    net_map.insert("a".to_string(), NetHandle { id: 1 });
    net_map.insert("c".to_string(), NetHandle { id: 3 });
    let mut config = CombineNetConfig {
        tcp_connect: NetRef::new("a".to_string()),
        tcp_bind: NetRef::new("b".to_string()),
        udp_bind: NetRef::new("c".to_string()),
    };
    assert_eq!(count_unresolved_refs(&mut config).unwrap(), 3);
    match resolve_net(&mut config, &net_map) {
        Err(Error::NotFound(name)) => assert_eq!(name, "b"),
        other => panic!("{:?}", other),
    }
    assert_eq!(config.tcp_connect.value(), Some(NetHandle { id: 1 }));
    assert_eq!(config.tcp_bind.value(), None);
    assert_eq!(config.udp_bind.value(), None);
    net_map.insert("b".to_string(), NetHandle { id: 2 });
    resolve_net(&mut config, &net_map).unwrap();
    assert_eq!(count_unresolved_refs(&mut config).unwrap(), 0);
    assert_eq!(config.udp_bind.value(), Some(NetHandle { id: 3 }));
    let net = CombineNet::build(config).unwrap();
    assert_eq!(net.route(NetOperation::TcpConnect).unwrap(), NetHandle { id: 1 });
    assert_eq!(net.route(NetOperation::TcpBind).unwrap(), NetHandle { id: 2 });
    assert_eq!(net.route(NetOperation::UdpBind).unwrap(), NetHandle { id: 3 });
    assert!(matches!(net.route(NetOperation::LookupHost), Err(Error::NotImplemented)));
}

#[test]
fn dependencies_are_named_once() {
    let mut config = CombineNetConfig {
        tcp_connect: NetRef::new("a".to_string()),
        tcp_bind: NetRef::new("b".to_string()),
        udp_bind: NetRef::new("a".to_string()),
    };
    assert_eq!(get_dependency(&mut config).unwrap(), vec!["a".to_string(), "b".to_string()]);
    assert_eq!(get_dependency(&mut EmptyConfig {}).unwrap(), Vec::<String>::new());
    assert_eq!(NetRef::default().name(), "local");
}

#[test]
fn alias_net() {
    assert_eq!(AliasNet::new(NetHandle { id: 3 }).net(), NetHandle { id: 3 });
    let built = AliasNet::build(AliasNetConfig { net: NetRef { name: "x".to_string(), net: Some(NetHandle { id: 4 }) } });
    assert_eq!(built.unwrap(), AliasNet(NetHandle { id: 4 }));
    match AliasNet::build(AliasNetConfig { net: NetRef::new("x".to_string()) }) {
        Err(Error::NotFound(name)) => assert_eq!(name, "x"),
        other => panic!("{:?}", other),
    }
}

#[test]
fn sort_puts_dependencies_first() {
    // 0 -> 1 -> 2, 3 -> 1
    let deps = vec![vec![1], vec![2], vec![], vec![1, 2]];
    let order = topological_sort(&deps).unwrap();
    assert_eq!(order.len(), 4);
    let place = |n: usize| order.iter().position(|x| *x == n).unwrap();
    for (node, ds) in deps.iter().enumerate() {
        for d in ds {
            assert!(place(*d) < place(node));
        }
    }
    assert_eq!(topological_sort(&Vec::new()).unwrap(), Vec::<usize>::new());
}

#[test]
fn sort_names_a_cycle() {
    // 0 -> 1 -> 2 -> 1, 3 alone
    let deps = vec![vec![1], vec![2], vec![1], vec![]];
    let cycle = topological_sort(&deps).unwrap_err();
    assert!(!cycle.is_empty());
    for (k, node) in cycle.iter().enumerate() {
        let next = cycle[(k + 1) % cycle.len()];
        assert!(deps[*node].contains(&next));
    }
    let mut sorted = cycle.clone();
    sorted.sort();
    assert_eq!(sorted, vec![1, 2]);
    assert_eq!(topological_sort(&vec![vec![0]]).unwrap_err(), vec![0]);
}

#[test]
fn nets_are_built_behind_what_they_refer_to() {
    let mut all_net: NameTable<Net> = NameTable::new();
    all_net.insert("c".to_string(), alias("b"));
    all_net.insert("b".to_string(), alias("a"));
    all_net.insert("a".to_string(), alias("local"));
    all_net.insert(
        "sniff".to_string(),
        Net::new_opt("dns_sniffer".to_string(), NetConfig::DnsSniffer(DNSNetConfig { net: NetRef::new("c".to_string()) })),
    );
    let nets = build_nets(&registry(), all_net).unwrap();
    assert_eq!(nets.len(), 6);
    for (k, net) in nets.iter().enumerate() {
        assert_eq!(net.net, NetHandle { id: k });
    }
    assert!(position(&nets, "local") < position(&nets, "a"));
    assert!(position(&nets, "a") < position(&nets, "b"));
    assert!(position(&nets, "b") < position(&nets, "c"));
    assert!(position(&nets, "c") < position(&nets, "sniff"));
    let _ = position(&nets, "noop");
    match &nets[position(&nets, "b")].opt {
        NetConfig::Alias(c) => assert_eq!(c.net.value(), Some(NetHandle { id: position(&nets, "a") })),
        other => panic!("{:?}", other),
    }
    match &nets[position(&nets, "sniff")].opt {
        NetConfig::DnsSniffer(c) => assert_eq!(c.net.value(), Some(NetHandle { id: position(&nets, "c") })),
        other => panic!("{:?}", other),
    }
}

#[test]
fn defaults_are_added_once() {
    let mut all_net: NameTable<Net> = NameTable::new();
    all_net.insert("local".to_string(), alias("noop"));
    let completed = with_defaults(all_net);
    assert_eq!(completed.len(), 2);
    assert!(matches!(completed.get(&"local".to_string()).unwrap().opt, NetConfig::Alias(_)));
    assert!(matches!(completed.get(&"noop".to_string()).unwrap().opt, NetConfig::Noop(_)));
    let completed = with_defaults(NameTable::new());
    assert_eq!(completed.len(), 2);
    assert_eq!(completed.get(&"local".to_string()).unwrap().net_type, "local");
    assert!(matches!(completed.get(&"local".to_string()).unwrap().opt, NetConfig::Local(_)));
}

#[test]
fn cyclic_nets_are_rejected_by_name() {
    let mut all_net: NameTable<Net> = NameTable::new();
    all_net.insert("a".to_string(), alias("b"));
    all_net.insert("b".to_string(), alias("c"));
    all_net.insert("c".to_string(), alias("a"));
    all_net.insert("d".to_string(), alias("a"));
    match build_nets(&registry(), all_net) {
        Err(Error::Cycle(names)) => {
            let mut sorted = names.clone();
            sorted.sort();
            assert_eq!(sorted, vec!["a".to_string(), "b".to_string(), "c".to_string()]);
            let next = |n: &str| match n {
                "a" => "b",
                "b" => "c",
                _ => "a",
            };
            for (k, n) in names.iter().enumerate() {
                assert_eq!(names[(k + 1) % names.len()], next(n));
            }
        }
        other => panic!("{:?}", other),
    }
    let mut all_net: NameTable<Net> = NameTable::new();
    all_net.insert("self".to_string(), alias("self"));
    match build_nets(&registry(), all_net) {
        Err(Error::Cycle(names)) => assert_eq!(names, vec!["self".to_string()]),
        other => panic!("{:?}", other),
    }
}

#[test]
fn unknown_names_and_types_are_rejected() {
    let mut all_net: NameTable<Net> = NameTable::new();
    all_net.insert("a".to_string(), alias("nowhere"));
    match build_nets(&registry(), all_net) {
        Err(Error::WithContext(w)) => {
            assert_eq!(w.context, "Loading net a");
            assert!(matches!(*w.error, Error::NotFound(ref name) if name == "nowhere"));
        },
        other => panic!("{:?}", other),
    }
    let mut all_net: NameTable<Net> = NameTable::new();
    all_net.insert("a".to_string(), Net::new_opt("shadow".to_string(), NetConfig::Noop(EmptyConfig {})));
    match build_nets(&registry(), all_net) {
        Err(Error::WithContext(w)) => {
            assert_eq!(w.context, "Loading net a");
            assert!(matches!(*w.error, Error::NotFound(ref msg) if msg == "Net type is not loaded: shadow"));
        },
        other => panic!("{:?}", other),
    }
    // the first net that cannot be loaded is the one that is told, and of it the type before the references
    let mut all_net: NameTable<Net> = NameTable::new();
    all_net.insert("fine".to_string(), alias("local"));
    all_net.insert("lost".to_string(), Net::new_opt("shadow".to_string(), NetConfig::Alias(AliasNetConfig { net: NetRef::new("nowhere".to_string()) })));
    all_net.insert("more".to_string(), alias("nowhere"));
    match build_nets(&registry(), all_net) {
        Err(Error::WithContext(w)) => {
            assert_eq!(w.context, "Loading net lost");
            assert!(matches!(*w.error, Error::NotFound(ref msg) if msg == "Net type is not loaded: shadow"));
        },
        other => panic!("{:?}", other),
    }
    let r = registry();
    assert_eq!(r.get_net(&"rule".to_string()).unwrap().plugin_name, "builtin");
    assert_eq!(r.get_server(&"forward".to_string()).unwrap().plugin_name, "builtin");
    match r.get_server(&"shadow".to_string()) {
        Err(Error::NotFound(msg)) => assert_eq!(msg, "Server type is not loaded: shadow"),
        other => panic!("{:?}", other),
    }
}

#[test]
fn written_configuration() {
    assert_eq!(Chain::One("a".to_string()).to_vec(), vec!["a".to_string()]);
    assert_eq!(
        Chain::Many(vec!["a".to_string(), "b".to_string()]).to_vec(),
        vec!["a".to_string(), "b".to_string()]
    );
    assert_eq!(Chain::Many(Vec::new()).to_vec(), Vec::<String>::new());
    assert_eq!(local_chain().to_vec(), vec!["local".to_string()]);
    assert_eq!(local_string(), "local");
    assert_eq!(rule(), "rule");
    assert_eq!(plugins(), "plugins");
    let net = AllNet::Net(Net {
        net_type: "alias".to_string(),
        chain: Chain::Many(vec!["x".to_string(), "y".to_string()]),
        opt: NetConfig::Noop(EmptyConfig {}),
    });
    assert_eq!(net.get_dependency(), vec!["x".to_string(), "y".to_string()]);
    assert_eq!(AllNet::Net(alias("q")).get_dependency(), vec!["local".to_string()]);
    let item = |target: &str| CompositeRuleItem {
        rule_type: "any".to_string(),
        target: target.to_string(),
        rest: serde_json::Value::Null,
    };
    let composite = AllNet::Composite(CompositeName {
        name: None,
        composite: Composite::Rule(CompositeRule { rule: vec![item("p"), item("q"), item("p")] }).into_default_type(),
    });
    assert_eq!(composite.get_dependency(), vec!["p".to_string(), "q".to_string(), "p".to_string()]);
    assert_eq!(AllNet::Local.get_dependency(), Vec::<String>::new());
    assert_eq!(AllNet::Noop.get_dependency(), Vec::<String>::new());
}

#[test]
fn imports_are_taken_out() {
    let mut config = rabbit_digger::config::Config::new();
    assert!(config.take_imports().is_empty());
    config.import = Some(vec![rabbit_digger::config::Import {
        name: Some("rules".to_string()),
        format: "clash".to_string(),
        path: "clash.yaml".to_string(),
        rest: serde_json::Value::Null,
    }]);
    let imports = config.take_imports();
    assert_eq!(imports.len(), 1);
    assert_eq!(imports[0].format, "clash");
    assert!(config.import.is_none());
    assert!(config.take_imports().is_empty());
}
