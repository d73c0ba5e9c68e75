use rabbit_digger::address::{Address, IpAddress, SocketAddress};
use rabbit_digger::context::Context;
use rabbit_digger::error::Error;
use rabbit_digger::lru::BoundedCache;
use rabbit_digger::net_ref::{NetHandle, NetRef};
use rabbit_digger::rule::config::{
    default_lru_cache_size, AnyMatcher, DomainMatcher, DomainMatcherMethod, GeoIpMatcher, IpCidrMatcher, RuleItem,
    RuleNetConfig, SrcIpCidrMatcher,
};
use rabbit_digger::rule::ipcidr::IpCidr;
use rabbit_digger::rule::matcher::{MatchContext, Matcher};
use rabbit_digger::rule::rule_net::{Rule, Selected};
use rabbit_digger::rule::udp::{PollAction, SendAction, State, UdpRuleSocket};
use rabbit_digger::rule::vecstr::VecStr;
use rabbit_digger::sniffer::dns_sniffer::DNSSnifferNet;

fn v4(a: u8, b: u8, c: u8, d: u8) -> u32 {
    u32::from_be_bytes([a, b, c, d])
}

fn resolved(name: &str, id: usize) -> NetRef {
    NetRef { name: name.to_string(), net: Some(NetHandle { id }) }
}

fn domain_rule(method: DomainMatcherMethod, patterns: &[&str], target: NetRef) -> RuleItem {
    RuleItem {
        target,
        matcher: rabbit_digger::rule::config::Matcher::Domain(DomainMatcher {
            method,
            domain: patterns.iter().map(|p| p.to_string()).collect(),
        }),
    }
}

fn any_rule(target: NetRef) -> RuleItem {
    RuleItem { target, matcher: rabbit_digger::rule::config::Matcher::Any(AnyMatcher {}) }
}

fn select(rule: &mut Rule, ctx: &Context, addr: &str) -> Result<Selected, Error> {
    rule.get_rule(ctx, &Address::parse(addr).unwrap())
}

#[test]
fn domain_match_routing() {
    let config = RuleNetConfig {
        lru_cache_size: default_lru_cache_size(),
        rule: vec![
            domain_rule(DomainMatcherMethod::Match, &["+.google.com"], resolved("proxy", 1)),
            any_rule(resolved("direct", 2)),
        ],
    };
    let mut rule = Rule::new(config).unwrap();
    let ctx = Context::new();
    let s = select(&mut rule, &ctx, "maps.google.com:443").unwrap();
    assert_eq!(s, Selected { index: 0, target: NetHandle { id: 1 } });
    assert_eq!(rule.rule[s.index].target_name, "proxy");
    let s = select(&mut rule, &ctx, "example.com:443").unwrap();
    assert_eq!(s, Selected { index: 1, target: NetHandle { id: 2 } });
    assert_eq!(rule.rule[s.index].target_name, "direct");
}

#[test]
fn test_cn() {
    let matcher = GeoIpMatcher { country: "CN".to_string() };
    let mut ctx = Context::new();
    ctx.insert_dest_country("CN".to_string());
    let mc = MatchContext::from_context_address(&ctx, &Address::parse("114.114.114.114:53").unwrap()).unwrap();
    assert!(matcher.match_rule(&mc));
    let mut ctx = Context::new();
    ctx.insert_dest_country("AU".to_string());
    let mc = MatchContext::from_context_address(&ctx, &Address::parse("1.1.1.1:53").unwrap()).unwrap();
    assert!(!matcher.match_rule(&mc));
    let mc = MatchContext::from_context_address(&Context::new(), &Address::parse("1.1.1.1:53").unwrap()).unwrap();
    assert!(!matcher.match_rule(&mc));
    assert!(matcher.test(&Some("CN".to_string())));
    assert!(!matcher.test(&Some("cn".to_string())));
    assert!(!matcher.test(&None));
}

#[test]
fn geoip_routing() {
    let config = RuleNetConfig {
        lru_cache_size: 32,
        rule: vec![
            RuleItem {
                target: resolved("cn_proxy", 1),
                matcher: rabbit_digger::rule::config::Matcher::GeoIp(GeoIpMatcher { country: "CN".to_string() }),
            },
            any_rule(resolved("direct", 2)),
        ],
    };
    let mut rule = Rule::new(config).unwrap();
    let mut ctx = Context::new();
    ctx.insert_dest_country("CN".to_string());
    assert_eq!(select(&mut rule, &ctx, "114.114.114.114:53").unwrap().target, NetHandle { id: 1 });
    let ctx = Context::new();
    assert_eq!(select(&mut rule, &ctx, "1.1.1.1:53").unwrap().target, NetHandle { id: 2 });
    // a domain lies in no country
    let mut ctx = Context::new();
    ctx.insert_dest_country("CN".to_string());
    assert_eq!(select(&mut rule, &ctx, "example.cn:53").unwrap().target, NetHandle { id: 2 });
}

#[test]
fn default_cache_size() {
    assert_eq!(default_lru_cache_size(), 32);
    let rule = Rule::new(RuleNetConfig { lru_cache_size: default_lru_cache_size(), rule: Vec::new() }).unwrap();
    assert_eq!(rule.cache.capacity, 32);
}

#[test]
fn no_matching_rule() {
    let config = RuleNetConfig {
        lru_cache_size: 4,
        rule: vec![domain_rule(DomainMatcherMethod::Suffix, &["+.com"], resolved("proxy", 1))],
    };
    let mut rule = Rule::new(config).unwrap();
    let ctx = Context::new();
    match select(&mut rule, &ctx, "1.2.3.4:80") {
        Err(Error::NotFound(msg)) => assert_eq!(msg, "no matching rule"),
        other => panic!("{:?}", other),
    }
    // what was not found is not remembered
    assert_eq!(rule.cache.len(), 0);
}

#[test]
fn unresolved_target_is_rejected() {
    let config = RuleNetConfig { lru_cache_size: 4, rule: vec![any_rule(NetRef::new("direct".to_string()))] };
    match Rule::new(config) {
        Err(Error::NotFound(name)) => assert_eq!(name, "direct"),
        _ => panic!("an unresolved target must be rejected"),
    }
}

#[test]
fn block_with_long_prefix_is_rejected() {
    let config = RuleNetConfig {
        lru_cache_size: 4,
        rule: vec![RuleItem {
            target: resolved("direct", 0),
            matcher: rabbit_digger::rule::config::Matcher::IpCidr(IpCidrMatcher {
                ipcidr: vec![IpCidr::V4 { address: 0, prefix_len: 33 }],
            }),
        }],
    };
    assert!(matches!(Rule::new(config), Err(Error::Other(_))));
}

#[test]
fn cached_selection_is_the_uncached_one() {
    let make = |size: usize| {
        Rule::new(RuleNetConfig {
            lru_cache_size: size,
            rule: vec![
                domain_rule(DomainMatcherMethod::Keyword, &["ads"], resolved("block", 0)),
                domain_rule(DomainMatcherMethod::Match, &["+.example.com"], resolved("proxy", 1)),
                RuleItem {
                    target: resolved("lan", 2),
                    matcher: rabbit_digger::rule::config::Matcher::IpCidr(IpCidrMatcher {
                        ipcidr: vec![IpCidr::from_str("192.168.0.0/16").unwrap()],
                    }),
                },
                any_rule(resolved("direct", 3)),
            ],
        })
        .unwrap()
    };
    let queries = [
        "ads.example.com:80",
        "www.example.com:443",
        "192.168.1.1:22",
        "10.0.0.1:22",
        "example.org:80",
        "example.com:80",
        "[::1]:80",
    ];
    let ctx = Context::new();
    let mut uncached = make(0);
    let expected: Vec<usize> = queries.iter().map(|q| select(&mut uncached, &ctx, q).unwrap().index).collect();
    assert_eq!(expected, vec![0, 1, 2, 3, 3, 1, 3]);
    assert_eq!(uncached.cache.len(), 0);
    // a small cache, asked in an order that keeps throwing entries out
    let mut cached = make(3);
    let mut seed: u64 = 12345;
    for _ in 0..500 {
        seed = seed.wrapping_mul(6364136223846793005).wrapping_add(1442695040888963407);
        let i = (seed >> 33) as usize % queries.len();
        assert_eq!(select(&mut cached, &ctx, queries[i]).unwrap().index, expected[i]);
        assert_eq!(cached.scan(&MatchContext::from_context_address(&ctx, &Address::parse(queries[i]).unwrap()).unwrap()), expected[i]);
        assert!(cached.cache.len() <= 3);
    }
}

#[test]
fn cache_key_holds_the_sniffed_domain() {
    let mut rule = Rule::new(RuleNetConfig {
        lru_cache_size: 8,
        rule: vec![
            domain_rule(DomainMatcherMethod::Match, &["baidu.com"], resolved("cn", 0)),
            any_rule(resolved("direct", 1)),
        ],
    })
    .unwrap();
    let addr = Address::parse("220.181.38.148:80").unwrap();
    let plain = Context::new();
    assert_eq!(rule.get_rule(&plain, &addr).unwrap().index, 1);
    let mut sniffed = Context::new();
    sniffed.insert_dest_domain(rabbit_digger::context::DestDomain { domain: "baidu.com".to_string(), port: 80 });
    assert_eq!(rule.get_rule(&sniffed, &addr).unwrap().index, 0);
    assert_eq!(rule.get_rule(&plain, &addr).unwrap().index, 1);
}

#[test]
fn sniffer_and_rule() {
    // the reply to a question for baidu.com: 220.181.38.148 and 220.181.38.251
    let reply: [u8; 59] = [
        0x00, 0x02, 0x81, 0x80, 0x00, 0x01, 0x00, 0x02, 0x00, 0x00, 0x00, 0x00, 0x05, 0x62, 0x61, 0x69, 0x64, 0x75,
        0x03, 0x63, 0x6F, 0x6D, 0x00, 0x00, 0x01, 0x00, 0x01, 0xC0, 0x0C, 0x00, 0x01, 0x00, 0x01, 0x00, 0x00, 0x01,
        0xFA, 0x00, 0x04, 0xDC, 0xB5, 0x26, 0x94, 0xC0, 0x0C, 0x00, 0x01, 0x00, 0x01, 0x00, 0x00, 0x01, 0xFA, 0x00,
        0x04, 0xDC, 0xB5, 0x26, 0xFB,
    ];
    let mut sniffer = DNSSnifferNet::new(NetHandle { id: 9 });
    sniffer.poll_recv_from(SocketAddress { ip: IpAddress::V4(v4(127, 0, 0, 1)), port: 53 }, &reply);
    let mut ctx = Context::new();
    let (net, addr) = sniffer.tcp_connect(&mut ctx, &Address::parse("220.181.38.148:80").unwrap());
    assert_eq!(net, NetHandle { id: 9 });
    assert!(addr.same(&Address::Domain("baidu.com".to_string(), 80)));
    let mut rule = Rule::new(RuleNetConfig {
        lru_cache_size: 8,
        rule: vec![
            domain_rule(DomainMatcherMethod::Match, &["baidu.com"], resolved("cn", 0)),
            any_rule(resolved("direct", 1)),
        ],
    })
    .unwrap();
    assert_eq!(rule.get_rule(&ctx, &addr).unwrap().index, 0);
    // the context alone carries the domain to the rules too
    assert_eq!(rule.get_rule(&ctx, &Address::parse("220.181.38.148:80").unwrap()).unwrap().index, 0);
}

#[test]
fn cidr_matchers() {
    let lan = IpCidr::from_str("192.168.0.0/16").unwrap();
    assert_eq!(lan, IpCidr::V4 { address: v4(192, 168, 0, 0), prefix_len: 16 });
    assert!(lan.contains_addr(&IpAddress::V4(v4(192, 168, 255, 1))));
    assert!(!lan.contains_addr(&IpAddress::V4(v4(192, 169, 0, 1))));
    assert!(!lan.contains_addr(&IpAddress::V6(1)));
    let all = IpCidr::from_str("0.0.0.0/0").unwrap();
    assert!(all.contains_addr(&IpAddress::V4(v4(8, 8, 8, 8))));
    let one = IpCidr::from_str("10.1.2.3/32").unwrap();
    assert!(one.contains_addr(&IpAddress::V4(v4(10, 1, 2, 3))));
    assert!(!one.contains_addr(&IpAddress::V4(v4(10, 1, 2, 2))));
    let v6 = IpCidr::from_str("fe80::/10").unwrap();
    assert_eq!(v6, IpCidr::V6 { address: 0xfe80u128 << 112, prefix_len: 10 });
    assert!(v6.contains_addr(&IpAddress::V6((0xfe80u128 << 112) + 1)));
    assert!(v6.contains_addr(&IpAddress::V6(0xfebfu128 << 112)));
    assert!(!v6.contains_addr(&IpAddress::V6(0xfec0u128 << 112)));
    assert!(!v6.contains_addr(&IpAddress::V4(v4(10, 1, 2, 3))));
    assert!(matches!(IpCidr::from_str("192.168.0.0"), Err(Error::Other(_))));
    assert!(matches!(IpCidr::from_str("192.168.0.0/33"), Err(Error::Other(_))));
    assert!(matches!(IpCidr::from_str("nonsense"), Err(Error::Other(_))));
    assert_eq!(IpCidr::new_v4([1, 2, 3, 4], 24), Some(IpCidr::V4 { address: 0x01020304, prefix_len: 24 }));
    assert_eq!(IpCidr::new_v4([1, 2, 3, 4], 33), None);
    let mut octets = [0u8; 16];
    octets[15] = 1;
    assert_eq!(IpCidr::new_v6(octets, 128), Some(IpCidr::V6 { address: 1, prefix_len: 128 }));
    assert_eq!(IpCidr::new_v6(octets, 129), None);

    let dst = IpCidrMatcher { ipcidr: vec![one, lan] };
    let src = SrcIpCidrMatcher { ipcidr: vec![lan] };
    let from_lan = Context::from_socketaddr(SocketAddress { ip: IpAddress::V4(v4(192, 168, 3, 4)), port: 5 });
    let mc = MatchContext::from_context_address(&from_lan, &Address::parse("10.1.2.3:80").unwrap()).unwrap();
    assert!(dst.match_rule(&mc));
    assert!(src.match_rule(&mc));
    let mc = MatchContext::from_context_address(&Context::new(), &Address::parse("example.com:80").unwrap()).unwrap();
    assert!(!dst.match_rule(&mc));
    assert!(!src.match_rule(&mc));
}

#[test]
fn bounded_cache_forgets_the_least_recently_used() {
    let mut cache: BoundedCache<IpAddress, u32> = BoundedCache::new(2);
    cache.insert(IpAddress::V4(1), 10);
    cache.insert(IpAddress::V4(2), 20);
    assert!(cache.touch(&IpAddress::V4(1)));
    assert_eq!(*cache.newest(), 10);
    cache.insert(IpAddress::V4(3), 30);
    assert!(!cache.touch(&IpAddress::V4(2)));
    assert!(cache.touch(&IpAddress::V4(1)));
    assert!(cache.touch(&IpAddress::V4(3)));
    cache.insert(IpAddress::V4(3), 31);
    assert_eq!(cache.len(), 2);
    assert_eq!(*cache.newest(), 31);
    let mut none: BoundedCache<IpAddress, u32> = BoundedCache::new(0);
    none.insert(IpAddress::V4(1), 10);
    assert_eq!(none.len(), 0);
}

#[test]
fn rule_socket_binds_once_per_target() {
    let mut rule = Rule::new(RuleNetConfig {
        lru_cache_size: 8,
        rule: vec![
            RuleItem {
                target: resolved("lan", 5),
                matcher: rabbit_digger::rule::config::Matcher::IpCidr(IpCidrMatcher {
                    ipcidr: vec![IpCidr::from_str("10.0.0.0/8").unwrap()],
                }),
            },
            any_rule(resolved("direct", 6)),
        ],
    })
    .unwrap();
    let a = SocketAddress { ip: IpAddress::V4(v4(10, 0, 0, 1)), port: 53 };
    let b = SocketAddress { ip: IpAddress::V4(v4(10, 0, 0, 2)), port: 53 };
    let c = SocketAddress { ip: IpAddress::V4(v4(8, 8, 8, 8)), port: 53 };
    let mut socket = UdpRuleSocket::new(Context::new(), Address::parse("0.0.0.0:0").unwrap());
    assert_eq!(socket.poll_ready(), PollAction::Ready);
    assert!(socket.poll_flush().is_err());
    assert_eq!(socket.poll_close(), PollAction::Ready);
    assert_eq!(socket.poll_next(), PollAction::Wait);
    assert!(matches!(socket.local_addr(), Err(Error::NotImplemented)));
    match socket.start_send(&mut rule, a, 0).unwrap() {
        SendAction::Bind { target, socket: id, bind_addr, dropped } => {
            assert_eq!(target, NetHandle { id: 5 });
            assert_eq!(id, 0);
            assert!(bind_addr.same(&Address::parse("0.0.0.0:0").unwrap()));
            assert!(dropped.is_empty());
        }
        other => panic!("{:?}", other),
    }
    assert_eq!(socket.state, State::Binding { first: a });
    assert_eq!(socket.poll_ready(), PollAction::Wait);
    // while the first socket is being bound nothing else is sent
    match socket.start_send(&mut rule, b, 1) {
        Err(Error::IO(e)) => assert_eq!(e.message, "rule udp not ready"),
        other => panic!("{:?}", other),
    }
    socket.bound(true);
    assert_eq!(socket.state, State::Binded);
    assert_eq!(socket.poll_ready(), PollAction::Delegate);
    assert_eq!(socket.poll_flush().unwrap(), PollAction::Delegate);
    assert!(matches!(socket.start_send(&mut rule, b, 2).unwrap(), SendAction::Forward { socket: 0, .. }));
    match socket.start_send(&mut rule, c, 3).unwrap() {
        SendAction::Bind { target, socket: id, .. } => {
            assert_eq!(target, NetHandle { id: 6 });
            assert_eq!(id, 1);
        }
        other => panic!("{:?}", other),
    }
    assert_eq!(socket.state, State::Binded);
    // after thirty seconds of silence the socket of the first target is dropped and made anew
    match socket.start_send(&mut rule, a, 2 + 30001).unwrap() {
        SendAction::Bind { target, socket: id, dropped, .. } => {
            assert_eq!(target, NetHandle { id: 5 });
            assert_eq!(id, 2);
            assert_eq!(dropped, vec![0]);
        }
        other => panic!("{:?}", other),
    }
    let mut failing = UdpRuleSocket::new(Context::new(), Address::parse("0.0.0.0:0").unwrap());
    assert!(matches!(failing.start_send(&mut rule, a, 0).unwrap(), SendAction::Bind { .. }));
    failing.bound(false);
    assert_eq!(failing.state, State::Idle);
}

#[test]
fn compact_strings() {
    let items = vec!["a".to_string(), "".to_string(), "déjà".to_string()];
    let list = VecStr::from_vec(items.clone()).unwrap();
    let mut it = list.iter();
    assert_eq!(it.next(), Some("a".to_string()));
    assert_eq!(it.next(), Some("".to_string()));
    assert_eq!(it.next(), Some("déjà".to_string()));
    assert_eq!(it.next(), None);
    assert_eq!(it.next(), None);
    assert_eq!(list.into_vec(), items);
    let single = VecStr::Single("x".to_string());
    let mut it = single.iter();
    assert_eq!(it.next(), Some("x".to_string()));
    assert_eq!(it.next(), None);
    assert_eq!(single.into_vec(), vec!["x".to_string()]);
    assert_eq!(VecStr::from_vec(Vec::new()).unwrap().into_vec(), Vec::<String>::new());
}
