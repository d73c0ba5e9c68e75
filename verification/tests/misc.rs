use rabbit_digger::address::{resolve_mapped_socket_addr, to_ipv4_mapped, Address, IpAddress, SocketAddrV4, SocketAddrV6, SocketAddress};
use rabbit_digger::builtin::local::{Attempt, LocalNet, LocalNetConfig, NextStep};
use rabbit_digger::config::Config;
use rabbit_digger::controller::Controller;
use rabbit_digger::net_ref::NetHandle;
use rabbit_digger::rabbit_digger::event::{closed, EventType};
use rabbit_digger::util::peekable::{PeekableTcpStream, ReadSource};
use rabbit_digger::context::{Context, DestDomain};
use rabbit_digger::error::{context, map_other, Error, ErrorWithContext, IoError, IoErrorKind};
use rabbit_digger::http::{has_colon, host_with_port};
use rabbit_digger::interface::{is_not_implemented, INet, NotImplementedNet, UdpSocket, UdpSocketExt};
use rabbit_digger::name_table::NameTable;
use rabbit_digger::registry::Registry;

fn v4(a: u8, b: u8, c: u8, d: u8) -> u32 {
    u32::from_be_bytes([a, b, c, d])
}

#[test]
fn addresses_are_read() {
    match Address::parse("127.0.0.1:1234").unwrap() {
        Address::V4(a) => assert_eq!(a, SocketAddrV4 { ip: v4(127, 0, 0, 1), port: 1234 }),
        other => panic!("{:?}", other),
    }
    match Address::parse("255.255.255.255:65535").unwrap() {
        Address::V4(a) => assert_eq!(a, SocketAddrV4 { ip: u32::MAX, port: 65535 }),
        other => panic!("{:?}", other),
    }
    match Address::parse("[::1]:443").unwrap() {
        Address::V6(a) => assert_eq!(a, SocketAddrV6 { ip: 1, port: 443 }),
        other => panic!("{:?}", other),
    }
    match Address::parse("[2001:db8::ff00:42:8329]:80").unwrap() {
        Address::V6(a) => assert_eq!(a.ip, 0x2001_0db8_0000_0000_0000_ff00_0042_8329),
        other => panic!("{:?}", other),
    }
    match Address::parse("[1:2:3:4:5:6:7:8]:80").unwrap() {
        Address::V6(a) => assert_eq!(a.ip, 0x0001_0002_0003_0004_0005_0006_0007_0008),
        other => panic!("{:?}", other),
    }
    match Address::parse("[FE80::]:0").unwrap() {
        Address::V6(a) => assert_eq!(a, SocketAddrV6 { ip: 0xfe80u128 << 112, port: 0 }),
        other => panic!("{:?}", other),
    }
    match Address::parse("[::]:1").unwrap() {
        Address::V6(a) => assert_eq!(a, SocketAddrV6 { ip: 0, port: 1 }),
        other => panic!("{:?}", other),
    }
    match Address::parse("example.com:26666").unwrap() {
        Address::Domain(d, p) => assert_eq!((d.as_str(), p), ("example.com", 26666)),
        other => panic!("{:?}", other),
    }
    // what is no address is a domain
    match Address::parse("1.2.3:80").unwrap() {
        Address::Domain(d, p) => assert_eq!((d.as_str(), p), ("1.2.3", 80)),
        other => panic!("{:?}", other),
    }
    match Address::parse("256.1.1.1:80").unwrap() {
        Address::Domain(d, _) => assert_eq!(d, "256.1.1.1"),
        other => panic!("{:?}", other),
    }
}

#[test]
fn broken_addresses_are_rejected() {
    for text in [
        "", "example.com", "example.com:", ":80", "example.com:65536", "example.com:123456", "example.com:-1",
        "example.com:8o", "[::1]", "[::1]80", "[::1]:", "[::1:80", "[1:2:3]:80", "[1:2:3:4:5:6:7:8:9]:80",
        "[1::2::3]:80", "[12345::]:80", "[g::]:80", "[:1]:80", "[1:]:80", "::1:80", "a:b:80", "exämple.com:80",
        "[1:2:3:4:5:6:7::8]:80",
    ] {
        assert!(matches!(Address::parse(text), Err(Error::Other(_))), "{}", text);
    }
}

#[test]
fn address_helpers() {
    let v4a = Address::parse("1.2.3.4:5").unwrap();
    let v6a = Address::parse("[::2]:6").unwrap();
    let dom = Address::parse("a.b:7").unwrap();
    assert_eq!((v4a.port(), v6a.port(), dom.port()), (5, 6, 7));
    assert_eq!(v4a.socket_addr(), Some(SocketAddress { ip: IpAddress::V4(v4(1, 2, 3, 4)), port: 5 }));
    assert_eq!(v6a.socket_addr(), Some(SocketAddress { ip: IpAddress::V6(2), port: 6 }));
    assert_eq!(dom.socket_addr(), None);
    assert!(v4a.to_any_addr_port().same(&Address::parse("0.0.0.0:0").unwrap()));
    assert!(v6a.to_any_addr_port().same(&Address::parse("[::]:0").unwrap()));
    assert!(dom.to_any_addr_port().same(&Address::parse("0.0.0.0:0").unwrap()));
    assert!(v4a.clone().same(&v4a));
    assert!(!v4a.same(&v6a));
    assert!(!dom.same(&Address::parse("a.b:8").unwrap()));
    assert!(Address::from_socket_addr(v6a.socket_addr().unwrap()).same(&v6a));
    assert!(Address::from_socket_addr(v4a.socket_addr().unwrap()).same(&v4a));

    let mapped: u128 = 0xffff_0102_0304;
    assert_eq!(to_ipv4_mapped(mapped), Some(v4(1, 2, 3, 4)));
    assert_eq!(to_ipv4_mapped(1), None);
    assert_eq!(to_ipv4_mapped(mapped | (1u128 << 100)), None);
    let addr = SocketAddress { ip: IpAddress::V6(mapped), port: 9 };
    assert_eq!(resolve_mapped_socket_addr(addr), SocketAddress { ip: IpAddress::V4(v4(1, 2, 3, 4)), port: 9 });
    let addr = SocketAddress { ip: IpAddress::V6(7), port: 9 };
    assert_eq!(resolve_mapped_socket_addr(addr), addr);
    let addr = SocketAddress { ip: IpAddress::V4(7), port: 9 };
    assert_eq!(resolve_mapped_socket_addr(addr), addr);
}

#[test]
fn errors() {
    assert!(Error::AbortedByUser.is_aborted());
    assert!(!Error::NotImplemented.is_aborted());
    let busy = Error::IO(IoError { kind: IoErrorKind::AddrInUse, message: "busy".to_string() });
    assert!(busy.is_addr_in_use());
    assert!(!Error::IO(IoError { kind: IoErrorKind::Other, message: "x".to_string() }).is_addr_in_use());
    assert!(!Error::NotFound("x".to_string()).is_addr_in_use());
    let ok: Result<u8, Error> = context(Ok(3), "trail".to_string());
    assert_eq!(ok.unwrap(), 3);
    let failed: Result<u8, Error> = context(Err(Error::NotEnabled), "trail".to_string());
    match failed {
        Err(Error::WithContext(w)) => {
            assert_eq!(w.context, "trail");
            assert!(matches!(*w.error, Error::NotEnabled));
        }
        other => panic!("{:?}", other),
    }
    let w = ErrorWithContext::new("c".to_string(), Error::NotImplemented);
    assert_eq!(w.context, "c");
    assert!(is_not_implemented(&w.error));
    assert!(!is_not_implemented(&Error::NotEnabled));
}

#[test]
fn contexts() {
    let from = SocketAddress { ip: IpAddress::V4(1), port: 2 };
    let mut ctx = Context::from_socketaddr(from);
    assert_eq!(ctx.get_source_addr(), Some(from));
    assert_eq!(Context::new().get_source_addr(), None);
    ctx.append_net(&"a".to_string());
    ctx.append_net(&"b".to_string());
    ctx.insert_dest_domain(DestDomain { domain: "x.y".to_string(), port: 3 });
    let mut child = ctx.clone();
    child.append_net(&"c".to_string());
    child.insert_dest_country("NZ".to_string());
    assert_eq!(ctx.net_list(), &vec!["a".to_string(), "b".to_string()]);
    assert_eq!(child.net_list(), &vec!["a".to_string(), "b".to_string(), "c".to_string()]);
    assert_eq!(child.dest_domain().as_ref().unwrap().domain, "x.y");
    assert!(ctx.dest_country.is_none());
    assert_eq!(child.dest_country, Some("NZ".to_string()));
}

#[test]
fn a_net_that_offers_nothing() {
    let net = NotImplementedNet;
    let mut ctx = Context::new();
    let addr = Address::parse("1.1.1.1:53").unwrap();
    assert!(matches!(net.tcp_connect(&mut ctx, &addr), Err(Error::NotImplemented)));
    assert!(matches!(net.tcp_bind(&mut ctx, &addr), Err(Error::NotImplemented)));
    assert!(matches!(net.udp_bind(&mut ctx, &addr), Err(Error::NotImplemented)));
    assert!(matches!(net.lookup_host(&addr), Err(Error::NotImplemented)));
    assert!(ctx.net_list().is_empty());
}

#[test]
fn small_things() {
    assert!(has_colon("a:b"));
    assert!(!has_colon("ab"));
    assert_eq!(host_with_port("example.com".to_string()), "example.com:80");
    assert_eq!(host_with_port("example.com:8080".to_string()), "example.com:8080");
    let local = LocalNetConfig::default();
    assert!(local.nodelay_or_default());
    assert!(!LocalNetConfig { nodelay: Some(false), ..local.clone() }.nodelay_or_default());
    assert!(local.ttl.is_none() && local.connect_timeout.is_none());

    let mut table: NameTable<u8> = NameTable::new();
    assert!(!table.insert("a".to_string(), 1));
    assert!(!table.insert("b".to_string(), 2));
    assert!(table.insert("a".to_string(), 3));
    assert_eq!(table.len(), 2);
    assert_eq!(table.get(&"a".to_string()), Some(&3));
    assert_eq!(table.get(&"c".to_string()), None);
    assert_eq!(table.find(&"b".to_string()), Some(1));
    assert!(table.contains_key(&"b".to_string()));

    let mut registry = Registry::new();
    let mut first = rabbit_digger::plugin::Registry::new();
    first.add_net("x".to_string());
    first.add_server("s".to_string());
    let mut second = rabbit_digger::plugin::Registry::new();
    second.add_net("x".to_string());
    second.add_net("y".to_string());
    registry.add_registry("first".to_string(), first);
    assert_eq!(registry.get_net(&"x".to_string()).unwrap().plugin_name, "first");
    registry.add_registry("second".to_string(), second);
    assert_eq!(registry.get_net(&"x".to_string()).unwrap().plugin_name, "second");
    assert_eq!(registry.get_net(&"y".to_string()).unwrap().plugin_name, "second");
    assert_eq!(registry.get_server(&"s".to_string()).unwrap().plugin_name, "first");
    assert!(registry.get_net(&"s".to_string()).is_err());
}

#[test]
fn controller_holds_one_configuration() {
    let mut controller = Controller::new();
    assert!(controller.lock().config().is_none());
    match controller.remove_config() {
        Err(Error::Other(msg)) => assert_eq!(msg, "failed to remove config from controller"),
        other => panic!("{:?}", other),
    }
    controller.update_config(Config::new()).unwrap();
    match controller.update_config(Config::new()) {
        Err(Error::Other(msg)) => assert_eq!(msg, "this controller already has a config"),
        other => panic!("{:?}", other),
    }
    assert_eq!(controller.lock().config().unwrap().plugin_path, "plugins");
    controller.remove_config().unwrap();
    assert!(controller.lock().config().is_none());
    let net = controller.get_net(NetHandle { id: 2 });
    let event = net.tcp_connect(5, &Address::parse("1.1.1.1:53").unwrap(), 7);
    assert!(matches!(event.event_type, EventType::NewTcp(_, _)));
    controller.process(vec![event, closed(5, 8)]);
    controller.process(vec![closed(6, 9)]);
    let uuids: Vec<u128> = controller.lock().events.iter().map(|e| e.uuid).collect();
    assert_eq!(uuids, vec![5, 5, 6]);

    let dom = Address::parse("a.b:7").unwrap();
    assert_eq!(dom.domain(), Some((&"a.b".to_string(), 7)));
    assert_eq!(Address::parse("1.1.1.1:53").unwrap().domain(), None);

    let mut peek = PeekableTcpStream::new();
    assert!(matches!(peek.poll_read(10), ReadSource::Stream));
    assert_eq!(peek.fill_buf(4), 4);
    peek.filled(&[1, 2, 3]);
    assert_eq!(peek.fill_buf(4), 1);
    assert_eq!(peek.fill_buf(2), 0);
    assert_eq!(peek.peek_exact(4), None);
    peek.filled(&[4, 5]);
    assert_eq!(peek.peek_exact(4), Some(vec![1, 2, 3, 4]));
    match peek.poll_read(2) {
        ReadSource::Buffered(b) => assert_eq!(b, vec![1, 2]),
        other => panic!("{:?}", other),
    }
    match peek.poll_read(10) {
        ReadSource::Buffered(b) => assert_eq!(b, vec![3, 4, 5]),
        other => panic!("{:?}", other),
    }
    assert!(matches!(peek.poll_read(10), ReadSource::Stream));
    peek.filled(&[9]);
    assert_eq!(peek.into_inner(), vec![9]);
}

#[test]
fn addresses_are_tried_in_turn() {
    let net = LocalNet::new(LocalNetConfig::default());
    match net.attempts(0).begin() {
        NextStep::GiveUp(Error::IO(e)) => {
            assert_eq!(e.kind, IoErrorKind::InvalidInput);
            assert_eq!(e.message, "could not resolve to any address");
        }
        other => panic!("{:?}", other),
    }
    let mut attempts = net.attempts(2);
    assert!(matches!(attempts.begin(), NextStep::TryNext));
    assert!(matches!(attempts.next(Attempt::Failed(Error::NotEnabled)), NextStep::TryNext));
    assert!(matches!(attempts.next(Attempt::Failed(Error::AbortedByUser)), NextStep::GiveUp(Error::AbortedByUser)));
    let mut attempts = net.attempts(3);
    assert!(matches!(attempts.next(Attempt::Failed(Error::NotEnabled)), NextStep::TryNext));
    assert!(matches!(attempts.next(Attempt::Done), NextStep::Finish));
    assert!(matches!(map_other("x".to_string()), Error::Other(_)));
}

#[derive(Debug, PartialEq)]
struct Tied(UdpSocket);

impl UdpSocketExt for Tied {}

#[test]
fn a_socket_is_tied_to_its_peer() {
    let peer = SocketAddress { ip: IpAddress::V4(v4(10, 0, 0, 1)), port: 53 };
    let (socket, to) = Tied(UdpSocket(4)).ext(peer);
    assert_eq!(socket, Tied(UdpSocket(4)));
    assert_eq!(to, peer);
    let other = SocketAddress { ip: IpAddress::V6(1), port: 0 };
    assert_eq!(Tied(UdpSocket(0)).ext(other), (Tied(UdpSocket(0)), other));
}
