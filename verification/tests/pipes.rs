use rabbit_digger::address::{Address, IpAddress, SocketAddress};
use rabbit_digger::builtin::forward::{
    serve_udp_step, ForwardServer, ForwardServerConfig, ListenUdpChannel, ReplyAction, ServeUdpAction, ServeUdpEvent,
    UDP_RETRY_MILLIS,
};
use rabbit_digger::error::Error;
use rabbit_digger::net_ref::{NetHandle, NetRef};
use rabbit_digger::util::connect_tcp::{PipeAction, PipeEvent, Side, TcpPipe};
use rabbit_digger::util::connect_udp::{clip, connect_udp, UdpAction, UdpEvent, UDP_BUFFER_SIZE};
use rabbit_digger::util::nat_cache::{client_key, ForwardUdp};
use rabbit_digger::util::forward_udp::{
    admits, reply_packet, NatTable, SendBack, SendBackAction, UdpPacket, BIND_TIMEOUT_MS, CONNECTION_QUEUE, NAT_CAPACITY,
    NAT_EXPIRY_MS, SEND_BACK_QUEUE,
};

fn sock(last: u8, port: u16) -> SocketAddress {
    SocketAddress { ip: IpAddress::V4(u32::from_be_bytes([10, 0, 0, last])), port }
}

#[test]
fn half_close_lets_the_answer_through() {
    let mut pipe = TcpPipe::new();
    assert_eq!(pipe.on_event(PipeEvent::Data { from: Side::A, len: 5 }), PipeAction::Write { to: Side::B, len: 5 });
    assert_eq!(pipe.on_event(PipeEvent::Eof { from: Side::A }), PipeAction::Shutdown { to: Side::B });
    assert!(!pipe.is_done());
    assert_eq!(pipe.on_event(PipeEvent::Data { from: Side::B, len: 7 }), PipeAction::Write { to: Side::A, len: 7 });
    assert_eq!(pipe.on_event(PipeEvent::Data { from: Side::A, len: 1 }), PipeAction::Discard);
    assert_eq!(pipe.on_event(PipeEvent::Eof { from: Side::A }), PipeAction::Discard);
    assert!(!pipe.is_done());
    assert_eq!(pipe.on_event(PipeEvent::Eof { from: Side::B }), PipeAction::Shutdown { to: Side::A });
    assert!(pipe.is_done());
    assert!(pipe.succeeded());
}

#[test]
fn a_failed_copy_ends_the_pipe() {
    let mut pipe = TcpPipe::new();
    assert_eq!(pipe.on_event(PipeEvent::Failed { from: Side::B }), PipeAction::Abort);
    assert!(pipe.is_done());
    assert!(!pipe.succeeded());
    assert_eq!(pipe.on_event(PipeEvent::Data { from: Side::A, len: 5 }), PipeAction::Discard);
    assert_eq!(Side::A.opposite(), Side::B);
    assert_eq!(Side::B.opposite(), Side::A);
}

#[test]
fn datagrams_are_passed_on() {
    let to = Address::Domain("example.com".to_string(), 53);
    match connect_udp(UdpEvent::FromChannel { len: 100, to }) {
        UdpAction::SendTo { len, to } => {
            assert_eq!(len, 100);
            assert!(to.same(&Address::Domain("example.com".to_string(), 53)));
        }
        other => panic!("{:?}", other),
    }
    match connect_udp(UdpEvent::FromSocket { len: 70000, from: sock(1, 2) }) {
        UdpAction::SendBack { len, from } => {
            assert_eq!(len, UDP_BUFFER_SIZE);
            assert_eq!(from, sock(1, 2));
        }
        other => panic!("{:?}", other),
    }
    assert!(matches!(connect_udp(UdpEvent::ChannelEnded), UdpAction::Finish(Ok(()))));
    assert!(matches!(connect_udp(UdpEvent::SocketEnded), UdpAction::Finish(Ok(()))));
    assert!(matches!(connect_udp(UdpEvent::SendFailed(Error::AbortedByUser)), UdpAction::Finish(Err(Error::AbortedByUser))));
    assert_eq!(UDP_BUFFER_SIZE, 65536);
    assert_eq!(clip(65536), 65536);
    assert_eq!(clip(65537), 65536);
    assert_eq!(clip(0), 0);
}

#[test]
fn idle_sockets_expire() {
    let mut table: NatTable<SocketAddress> = NatTable::new(NAT_CAPACITY, NAT_EXPIRY_MS);
    assert_eq!(NAT_EXPIRY_MS, 30000);
    assert_eq!(NAT_CAPACITY, 256);
    let d = table.on_packet(sock(1, 1000), 5);
    assert_eq!((d.connection, d.created, d.dropped), (Some(0), true, vec![]));
    let d = table.on_packet(sock(2, 1000), 10);
    assert_eq!((d.connection, d.created, d.dropped), (Some(1), true, vec![]));
    // still good after exactly thirty seconds
    let d = table.on_packet(sock(1, 1000), 30005);
    assert_eq!((d.connection, d.created, d.dropped), (Some(0), false, vec![]));
    // the second client was silent for too long; the first one was not
    let d = table.on_packet(sock(3, 1000), 30011);
    assert_eq!((d.connection, d.created, d.dropped), (Some(2), true, vec![1]));
    assert_eq!(table.len(), 2);
    // a packet from the client whose socket was dropped makes a new socket
    let d = table.on_packet(sock(2, 1000), 30012);
    assert_eq!((d.connection, d.created, d.dropped), (Some(3), true, vec![]));
    // everything expires at once
    assert_eq!(table.purge(100000), vec![0, 2, 3]);
    assert_eq!(table.len(), 0);
    // a clock that steps back drops nothing
    let d = table.on_packet(sock(1, 1000), 50);
    assert_eq!((d.connection, d.created), (Some(4), true));
    let d = table.on_packet(sock(1, 1000), 40);
    assert_eq!((d.connection, d.created, d.dropped), (Some(4), false, vec![]));
}

#[test]
fn a_full_table_drops_the_least_recently_used() {
    let mut table: NatTable<SocketAddress> = NatTable::new(2, 1000);
    assert_eq!(table.on_packet(sock(1, 1), 0).connection, Some(0));
    assert_eq!(table.on_packet(sock(2, 1), 1).connection, Some(1));
    assert_eq!(table.on_packet(sock(1, 1), 2).connection, Some(0));
    let d = table.on_packet(sock(3, 1), 3);
    assert_eq!((d.connection, d.created, d.dropped), (Some(2), true, vec![1]));
    let mut none: NatTable<SocketAddress> = NatTable::new(0, 1000);
    let d = none.on_packet(sock(1, 1), 0);
    assert_eq!((d.connection, d.created, d.dropped), (None, false, vec![]));
}

#[test]
fn queues_are_bounded() {
    assert_eq!(CONNECTION_QUEUE, 64);
    assert_eq!(SEND_BACK_QUEUE, 1024);
    assert_eq!(BIND_TIMEOUT_MS, 5000);
    assert!(admits(0));
    assert!(admits(63));
    assert!(!admits(64));
    assert!(!admits(1000));
    let p = reply_packet(sock(1, 1000), sock(9, 53), 12);
    assert_eq!(p, UdpPacket { from: sock(9, 53), to: sock(1, 1000), len: 12 });
    let mut back = SendBack::new();
    assert_eq!(back.next(), SendBackAction::Receive);
    back.received(p);
    assert_eq!(back.next(), SendBackAction::Send(p));
    assert_eq!(back.next(), SendBackAction::Send(p));
    back.sent();
    assert_eq!(back.next(), SendBackAction::Receive);
}

#[test]
fn forward_server_settings() {
    let cfg = |udp_bind: Option<Address>, target: &str| ForwardServerConfig {
        bind: Address::parse("127.0.0.1:1234").unwrap(),
        target: Address::parse(target).unwrap(),
        udp: true,
        udp_bind,
        net: NetRef { name: "n".to_string(), net: Some(NetHandle { id: 1 }) },
        listen: NetRef { name: "l".to_string(), net: Some(NetHandle { id: 2 }) },
    };
    let server = ForwardServer::new(cfg(None, "127.0.0.1:4321")).unwrap();
    assert_eq!(server.net, NetHandle { id: 1 });
    assert_eq!(server.listen_net, NetHandle { id: 2 });
    assert!(server.udp);
    assert!(server.bind.same(&Address::parse("127.0.0.1:1234").unwrap()));
    assert!(server.target.same(&Address::parse("127.0.0.1:4321").unwrap()));
    assert!(server.udp_bind_addr().same(&Address::parse("0.0.0.0:0").unwrap()));
    let server = ForwardServer::new(cfg(None, "[::1]:4321")).unwrap();
    assert!(server.udp_bind_addr().same(&Address::parse("[::]:0").unwrap()));
    let server = ForwardServer::new(cfg(None, "example.com:4321")).unwrap();
    assert!(server.udp_bind_addr().same(&Address::parse("0.0.0.0:0").unwrap()));
    let server = ForwardServer::new(cfg(Some(Address::parse("10.0.0.1:99").unwrap()), "[::1]:4321")).unwrap();
    assert!(server.udp_bind_addr().same(&Address::parse("10.0.0.1:99").unwrap()));
    let mut unresolved = cfg(None, "127.0.0.1:4321");
    unresolved.listen = NetRef::new("l".to_string());
    match ForwardServer::new(unresolved) {
        Err(Error::NotFound(name)) => assert_eq!(name, "l"),
        _ => panic!("an unresolved reference must be rejected"),
    }

    let mut channel = ListenUdpChannel::new(Address::parse("127.0.0.1:4321").unwrap());
    assert_eq!(channel.on_reply(), ReplyAction::Sent(0));
    assert!(channel.on_datagram(sock(7, 70)).same(&Address::parse("127.0.0.1:4321").unwrap()));
    assert_eq!(channel.on_reply(), ReplyAction::SendTo(sock(7, 70)));
    let _ = channel.on_datagram(sock(8, 80));
    assert_eq!(channel.on_reply(), ReplyAction::SendTo(sock(8, 80)));
}

#[test]
fn datagram_forwarding_steps() {
    let events = [
        ServeUdpEvent::Started,
        ServeUdpEvent::BindFailed,
        ServeUdpEvent::BridgeEnded,
        ServeUdpEvent::BridgeFailed,
        ServeUdpEvent::Rested,
    ];
    for event in events {
        assert_eq!(serve_udp_step(false, event), ServeUdpAction::Idle);
    }
    assert_eq!(serve_udp_step(true, ServeUdpEvent::Started), ServeUdpAction::Bridge);
    assert_eq!(serve_udp_step(true, ServeUdpEvent::BindFailed), ServeUdpAction::Stop);
    assert_eq!(serve_udp_step(true, ServeUdpEvent::BridgeEnded), ServeUdpAction::Bridge);
    assert_eq!(serve_udp_step(true, ServeUdpEvent::BridgeFailed), ServeUdpAction::RetryAfter(3000));
    assert_eq!(serve_udp_step(true, ServeUdpEvent::Rested), ServeUdpAction::Bridge);
    assert_eq!(UDP_RETRY_MILLIS, 3000);
}

#[test]
fn a_client_keeps_its_connection_while_it_sends() {
    let mut table = ForwardUdp::new();
    let first = table.get(sock(1, 1000));
    assert_eq!(first.connection, Some(0));
    assert!(first.created);
    assert!(first.expired.is_empty());
    let again = table.get(sock(1, 1000));
    assert_eq!(again.connection, Some(0));
    assert!(!again.created);
    assert!(again.expired.is_empty());
    let other = table.get(sock(2, 1000));
    assert_eq!(other.connection, Some(1));
    assert!(other.created);
    let port = table.get(sock(1, 1001));
    assert_eq!(port.connection, Some(2));
    assert!(port.created);
    assert_eq!(table.next_id, 3);
    let mut live = table.live();
    live.sort();
    assert_eq!(live, vec![0, 1, 2]);
}

#[test]
fn a_silent_client_gets_a_new_connection() {
    let mut table = ForwardUdp::with_expiry_and_capacity(20, 4);
    assert_eq!(table.get(sock(1, 1)).connection, Some(0));
    let start = std::time::Instant::now();
    while start.elapsed() < std::time::Duration::from_millis(80) {
        std::hint::spin_loop();
    }
    assert!(table.live().is_empty());
    let next = table.get(sock(1, 1));
    assert!(next.created);
    assert_eq!(next.connection, Some(1));
    assert_eq!(next.expired, vec![0]);
    assert_eq!(table.live(), vec![1]);
}

#[test]
fn a_full_cache_drops_the_client_that_was_silent_longest() {
    let mut table = ForwardUdp::with_expiry_and_capacity(60_000, 2);
    assert_eq!(table.get(sock(1, 1)).connection, Some(0));
    assert_eq!(table.get(sock(2, 1)).connection, Some(1));
    assert!(!table.get(sock(1, 1)).created);
    let third = table.get(sock(3, 1));
    assert_eq!(third.connection, Some(2));
    assert!(third.created);
    let mut live = table.live();
    live.sort();
    assert_eq!(live, vec![0, 2]);
    let back = table.get(sock(2, 1));
    assert!(back.created);
    assert_eq!(back.connection, Some(3));
}

#[test]
fn the_numbers_can_run_out() {
    let mut table = ForwardUdp::new();
    table.next_id = u64::MAX - 1;
    let last = table.get(sock(1, 1));
    assert_eq!(last.connection, Some(u64::MAX - 1));
    assert!(!table.get(sock(1, 1)).created);
    let none = table.get(sock(2, 1));
    assert_eq!(none.connection, None);
    assert!(!none.created);
    assert_eq!(table.get(sock(1, 1)).connection, Some(u64::MAX - 1));
}

#[test]
fn clients_are_told_apart_by_version_address_and_port() {
    let v4 = SocketAddress { ip: IpAddress::V4(7), port: 9 };
    let v6 = SocketAddress { ip: IpAddress::V6(7), port: 9 };
    assert_eq!(client_key(v4), (4, 7, 9));
    assert_eq!(client_key(v6), (6, 7, 9));
    let mut table = ForwardUdp::new();
    assert_eq!(table.get(v4).connection, Some(0));
    assert_eq!(table.get(v6).connection, Some(1));
    assert_eq!(table.get(v4).connection, Some(0));
}
