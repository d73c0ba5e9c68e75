use rabbit_digger::address::{Address, IpAddress, SocketAddress};
use rabbit_digger::context::Context;
use rabbit_digger::net_ref::NetHandle;
use rabbit_digger::sniffer::dns::{parse_reply, read_plain_name, read_u16, skip_name};
use rabbit_digger::sniffer::dns_sniffer::DNSSnifferNet;
use rabbit_digger::sniffer::service::{ReverseLookup, REVERSE_LOOKUP_CAPACITY};

fn v4(a: u8, b: u8, c: u8, d: u8) -> IpAddress {
    IpAddress::V4(u32::from_be_bytes([a, b, c, d]))
}

const QUERY: [u8; 27] = [
    0x00, 0x02, 0x01, 0x00, 0x00, 0x01, 0x00, 0x00, 0x00, 0x00, 0x00, 0x00, 0x05, 0x62, 0x61, 0x69, 0x64, 0x75, 0x03,
    0x63, 0x6F, 0x6D, 0x00, 0x00, 0x01, 0x00, 0x01,
];

const REPLY: [u8; 59] = [
    0x00, 0x02, 0x81, 0x80, 0x00, 0x01, 0x00, 0x02, 0x00, 0x00, 0x00, 0x00, 0x05, 0x62, 0x61, 0x69, 0x64, 0x75, 0x03,
    0x63, 0x6F, 0x6D, 0x00, 0x00, 0x01, 0x00, 0x01, 0xC0, 0x0C, 0x00, 0x01, 0x00, 0x01, 0x00, 0x00, 0x01, 0xFA, 0x00,
    0x04, 0xDC, 0xB5, 0x26, 0x94, 0xC0, 0x0C, 0x00, 0x01, 0x00, 0x01, 0x00, 0x00, 0x01, 0xFA, 0x00, 0x04, 0xDC, 0xB5,
    0x26, 0xFB,
];

#[test]
fn test_dns_sniffer() {
    let mut net = DNSSnifferNet::new(NetHandle { id: 0 });
    let server = SocketAddress { ip: v4(127, 0, 0, 1), port: 53 };
    let client = SocketAddress { ip: v4(127, 0, 0, 1), port: 1024 };

    // the question passes the server's socket; it comes from the client, and it is no reply
    net.poll_recv_from(client, &QUERY);
    assert_eq!(net.rl.reverse_lookup(v4(220, 181, 38, 148)), None);

    // the reply passes the client's socket
    net.poll_recv_from(server, &REPLY);

    assert_eq!(net.rl.reverse_lookup(v4(220, 181, 38, 148)), Some("baidu.com".to_string()));
    assert_eq!(net.rl.reverse_lookup(v4(220, 181, 38, 251)), Some("baidu.com".to_string()));
    assert_eq!(net.rl.reverse_lookup(v4(220, 181, 38, 1)), None);
}

#[test]
fn only_port_53_is_read() {
    let mut net = DNSSnifferNet::new(NetHandle { id: 0 });
    net.poll_recv_from(SocketAddress { ip: v4(127, 0, 0, 1), port: 5353 }, &REPLY);
    assert_eq!(net.rl.reverse_lookup(v4(220, 181, 38, 148)), None);
    net.poll_recv_from(SocketAddress { ip: v4(127, 0, 0, 1), port: 53 }, &QUERY);
    assert_eq!(net.rl.records.len(), 0);
}

#[test]
fn a_new_sniffer_remembers_nothing_and_has_room() {
    let net = DNSSnifferNet::new(NetHandle { id: 4 });
    assert_eq!(net.net, NetHandle { id: 4 });
    assert_eq!(net.rl.records.capacity, 1024);
    assert_eq!(net.rl.records.capacity, REVERSE_LOOKUP_CAPACITY);
    assert!(net.rl.records.entries.is_empty());
}

#[test]
fn destination_is_rewritten() {
    let mut net = DNSSnifferNet::new(NetHandle { id: 4 });
    net.poll_recv_from(SocketAddress { ip: v4(9, 9, 9, 9), port: 53 }, &REPLY);
    let mut ctx = Context::new();
    let (to, addr) = net.tcp_connect(&mut ctx, &Address::parse("220.181.38.251:8080").unwrap());
    assert_eq!(to, NetHandle { id: 4 });
    assert!(addr.same(&Address::Domain("baidu.com".to_string(), 8080)));
    let noted = ctx.dest_domain().as_ref().unwrap();
    assert_eq!(noted.domain, "baidu.com");
    assert_eq!(noted.port, 8080);

    let mut ctx = Context::new();
    let (_, addr) = net.tcp_connect(&mut ctx, &Address::parse("1.1.1.1:80").unwrap());
    assert!(addr.same(&Address::parse("1.1.1.1:80").unwrap()));
    assert!(ctx.dest_domain().is_none());
    let (_, addr) = net.tcp_connect(&mut ctx, &Address::parse("example.com:80").unwrap());
    assert!(addr.same(&Address::Domain("example.com".to_string(), 80)));
    assert!(ctx.dest_domain().is_none());
}

#[test]
fn replies_are_read() {
    let reply = parse_reply(&REPLY).unwrap();
    assert_eq!(reply.name, "baidu.com");
    assert_eq!(reply.addresses, vec![v4(220, 181, 38, 148), v4(220, 181, 38, 251)]);
    assert!(parse_reply(&QUERY).is_none());
    assert_eq!(read_u16(&REPLY, 6), 2);
    let (name, end) = read_plain_name(&REPLY, 12).unwrap();
    assert_eq!(name, "baidu.com");
    assert_eq!(end, 23);
    assert_eq!(skip_name(&REPLY, 12), Some(23));
    assert_eq!(skip_name(&REPLY, 27), Some(29));
    assert!(read_plain_name(&REPLY, 27).is_none());
}

#[test]
fn broken_replies_are_ignored() {
    for cut in 0..REPLY.len() {
        assert!(parse_reply(&REPLY[..cut]).is_none(), "cut at {}", cut);
    }
    // no question
    let mut r = REPLY;
    r[5] = 0;
    assert!(parse_reply(&r).is_none());
    // a label that is too long
    let mut r = REPLY;
    r[12] = 64;
    assert!(parse_reply(&r).is_none());
    // a byte that is no ASCII in the name
    let mut r = REPLY;
    r[13] = 0xe9;
    assert!(parse_reply(&r).is_none());
    // more answers than there are
    let mut r = REPLY;
    r[7] = 3;
    assert!(parse_reply(&r).is_none());
    let mut lookup = ReverseLookup::new();
    lookup.record_packet(&r);
    assert_eq!(lookup.records.len(), 0);
}

#[test]
fn other_records_are_passed_over() {
    // one CNAME answer and one AAAA answer
    let mut r: Vec<u8> = vec![0, 1, 0x81, 0x80, 0, 1, 0, 2, 0, 0, 0, 0];
    r.extend_from_slice(&[1, b'a', 2, b'b', b'c', 0, 0, 28, 0, 1]);
    r.extend_from_slice(&[0xC0, 0x0C, 0, 5, 0, 1, 0, 0, 0, 9, 0, 2, 0xC0, 0x0C]);
    r.extend_from_slice(&[0xC0, 0x0C, 0, 28, 0, 1, 0, 0, 0, 9, 0, 16]);
    r.extend_from_slice(&[0x20, 0x01, 0x0d, 0xb8, 0, 0, 0, 0, 0, 0, 0, 0, 0, 0, 0, 1]);
    let reply = parse_reply(&r).unwrap();
    assert_eq!(reply.name, "a.bc");
    assert_eq!(reply.addresses, vec![IpAddress::V6(0x2001_0db8_0000_0000_0000_0000_0000_0001)]);
}

#[test]
fn newer_answers_replace_older_ones() {
    let mut lookup = ReverseLookup::new();
    lookup.record(v4(1, 1, 1, 1), "one.example".to_string());
    lookup.record(v4(1, 1, 1, 1), "uno.example".to_string());
    assert_eq!(lookup.reverse_lookup(v4(1, 1, 1, 1)), Some("uno.example".to_string()));
    assert_eq!(lookup.records.len(), 1);
}
