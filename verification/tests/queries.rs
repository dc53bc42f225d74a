use bytes::Bytes;
use stackaddr::{
    Identity, IpAddr, Ipv4Addr, Ipv6Addr, MacAddr, Protocol, Segment, StackAddr, StackAddrError,
    TransportProtocol,
};

fn parse(s: &str) -> StackAddr {
    StackAddr::from_str(s).unwrap()
}

#[test]
fn scenario_tls_over_tcp() {
    let input = "/ip4/127.0.0.1/tcp/443/tls/http";
    let addr = parse(input);
    assert_eq!(addr.segments().len(), 4);
    assert_eq!(addr.to_string(), input);
    assert_eq!(addr.port(), Some(443));
    assert_eq!(addr.transport(), Some(TransportProtocol::TlsTcp(443)));
}

#[test]
fn scenario_link_to_transport() {
    let addr = parse("/mac/aa:bb:cc:dd:ee:ff/ip4/192.168.1.1/tcp/8080");
    assert_eq!(
        addr.mac(),
        Some(MacAddr::new(0xaa, 0xbb, 0xcc, 0xdd, 0xee, 0xff))
    );
    assert_eq!(addr.port(), Some(8080));
}

#[test]
fn scenario_node_identity() {
    let bytes: Vec<u8> = (0u8..32).map(|i| i.wrapping_mul(37).wrapping_add(11)).collect();
    let text = base32::encode(base32::Alphabet::Rfc4648 { padding: false }, &bytes);
    let input = format!("/node/{}", text);
    let addr = parse(&input);
    assert_eq!(
        addr.segments(),
        &[Segment::Identity(Identity::NodeId(Bytes::from(bytes.clone())))]
    );
    assert_eq!(addr.get_identity().unwrap().id_bytes(), &bytes[..]);
    assert_eq!(addr.to_string(), input);
}

#[test]
fn scenario_metadata() {
    let addr = parse("/meta/env/production");
    assert_eq!(
        addr.segments(),
        &[Segment::Metadata("env".to_string(), "production".to_string())]
    );
    assert_eq!(addr.to_string(), "/meta/env/production");
}

#[test]
fn scenario_paths() {
    let addr = parse("/downloads/images");
    assert_eq!(
        addr.segments(),
        &[
            Segment::Path("downloads".to_string()),
            Segment::Path("images".to_string())
        ]
    );
    assert_eq!(addr.to_string(), "/downloads/images");
}

#[test]
fn scenario_missing_port() {
    match StackAddr::from_str("/tcp/") {
        Err(StackAddrError::MissingPart(what)) => assert_eq!(what, "tcp port"),
        other => panic!("{:?}", other),
    }
}

#[test]
fn transport_pairs_port_with_marker() {
    assert_eq!(
        parse("/ip4/1.2.3.4/udp/443/quic").transport(),
        Some(TransportProtocol::Quic(443))
    );
    assert_eq!(
        parse("/tcp/443/tls").transport(),
        Some(TransportProtocol::TlsTcp(443))
    );
    assert_eq!(parse("/udp/53").transport(), Some(TransportProtocol::Udp(53)));
    assert_eq!(parse("/tcp/22").transport(), Some(TransportProtocol::Tcp(22)));
}

#[test]
fn transport_ignores_bare_markers() {
    assert_eq!(parse("/tls").transport(), None);
    assert_eq!(parse("/quic").transport(), None);
    assert_eq!(parse("/ip4/1.2.3.4/http").transport(), None);
    assert_eq!(StackAddr::empty().transport(), None);
    // a marker that does not fit the port before it is passed over
    assert_eq!(
        parse("/tcp/1/quic").transport(),
        Some(TransportProtocol::Tcp(1))
    );
    assert_eq!(
        parse("/udp/1/tls").transport(),
        Some(TransportProtocol::Udp(1))
    );
    assert_eq!(
        parse("/quic/udp/7").transport(),
        Some(TransportProtocol::Udp(7))
    );
}

#[test]
fn transport_takes_the_last_port_before_the_marker() {
    assert_eq!(
        parse("/tcp/1/udp/2/quic").transport(),
        Some(TransportProtocol::Quic(2))
    );
    assert_eq!(
        parse("/udp/2/tcp/1/tls/quic").transport(),
        Some(TransportProtocol::TlsTcp(1))
    );
    assert_eq!(
        parse("/tcp/1/tcp/2").transport(),
        Some(TransportProtocol::Tcp(2))
    );
}

#[test]
fn transport_ends_at_web_transports() {
    assert_eq!(parse("/ws/80").transport(), Some(TransportProtocol::Ws(80)));
    assert_eq!(parse("/wss/443").transport(), Some(TransportProtocol::Wss(443)));
    assert_eq!(
        parse("/wtr/4433").transport(),
        Some(TransportProtocol::WebTransport(4433))
    );
    assert_eq!(
        parse("/tcp/1/ws/80/tls").transport(),
        Some(TransportProtocol::Ws(80))
    );
}

#[test]
fn transport_protocol_port_and_security() {
    let all = [
        (TransportProtocol::Tcp(1), 1, false, "tcp/1"),
        (TransportProtocol::Udp(2), 2, false, "udp/2"),
        (TransportProtocol::TlsTcp(3), 3, true, "tls/tcp/3"),
        (TransportProtocol::Quic(4), 4, true, "quic/4"),
        (TransportProtocol::Ws(5), 5, false, "ws/5"),
        (TransportProtocol::Wss(6), 6, true, "wss/6"),
        (TransportProtocol::WebTransport(65535), 65535, true, "wtr/65535"),
    ];
    for (t, port, secure, text) in all {
        assert_eq!(t.port(), port);
        assert_eq!(t.is_secure(), secure);
        assert_eq!(t.to_string(), text);
    }
}

#[test]
fn port_is_the_first_port_and_quic_stands_for_443() {
    assert_eq!(parse("/udp/4433/quic").port(), Some(4433));
    assert_eq!(parse("/quic").port(), Some(443));
    assert_eq!(parse("/ip4/1.2.3.4/quic").port(), Some(443));
    assert_eq!(parse("/quic/udp/4433").port(), Some(443));
    assert_eq!(parse("/ws/1/tcp/2").port(), Some(1));
    assert_eq!(parse("/wss/3").port(), Some(3));
    assert_eq!(parse("/wtr/4").port(), Some(4));
    assert_eq!(parse("/tls/http/ip4/1.2.3.4").port(), None);
}

#[test]
fn first_match_wins_for_ip_name_and_mac() {
    let addr = parse("/dns/a/ip6/::2/ip4/1.1.1.1/dns4/b/mac/00:00:00:00:00:01/mac/00:00:00:00:00:02");
    assert_eq!(
        addr.ip(),
        Some(IpAddr::V6(Ipv6Addr::new(0, 0, 0, 0, 0, 0, 0, 2)))
    );
    assert_eq!(addr.name(), Some("a"));
    assert_eq!(addr.mac(), Some(MacAddr::new(0, 0, 0, 0, 0, 1)));
    assert_eq!(
        addr.get_ip(),
        Some(&Protocol::Ip6(Ipv6Addr::new(0, 0, 0, 0, 0, 0, 0, 2)))
    );
    assert_eq!(addr.get_dns(), Some(&Protocol::Dns("a".to_string())));
    assert_eq!(parse("/dns6/x").get_dns(), Some(&Protocol::Dns6("x".to_string())));
    assert_eq!(parse("/dns4/y").name(), Some("y"));
    let none = parse("/tcp/1");
    assert_eq!(none.ip(), None);
    assert_eq!(none.name(), None);
    assert_eq!(none.mac(), None);
    assert_eq!(none.get_ip(), None);
    assert_eq!(none.get_dns(), None);
    assert_eq!(none.get_identity(), None);
}

#[test]
fn append_then_query() {
    let x = Ipv4Addr::new(203, 0, 113, 7);
    let addr = StackAddr::empty().with_protocol(Protocol::Ip4(x));
    assert_eq!(addr.ip(), Some(IpAddr::V4(x)));
    let addr = addr.with_protocol(Protocol::Tcp(8443));
    assert_eq!(addr.port(), Some(8443));
    // the first match wins: a later segment does not change the answer
    let addr = addr
        .with_protocol(Protocol::Ip4(Ipv4Addr::new(1, 1, 1, 1)))
        .with_protocol(Protocol::Tcp(1));
    assert_eq!(addr.ip(), Some(IpAddr::V4(x)));
    assert_eq!(addr.port(), Some(8443));
}

#[test]
fn resolved_iff_an_ip_segment_is_there() {
    assert!(!StackAddr::empty().resolved());
    assert!(!parse("/dns/example.org/tcp/80").resolved());
    assert!(parse("/ip4/1.2.3.4").resolved());
    assert!(parse("/tcp/80/ip6/::1").resolved());
}

#[test]
fn resolve_rewrites_every_dns_segment() {
    let mut addr = parse("/dns/a/tcp/80/dns4/b/dns6/c/http");
    let ip = IpAddr::V4(Ipv4Addr::new(9, 9, 9, 9));
    addr.resolve(ip);
    assert!(addr.resolved());
    assert_eq!(addr.ip(), Some(ip));
    assert_eq!(
        addr.to_string(),
        "/ip4/9.9.9.9/tcp/80/ip4/9.9.9.9/ip4/9.9.9.9/http"
    );
    let mut addr = parse("/dns/a/udp/53");
    addr.resolve(IpAddr::V6(Ipv6Addr::new(0x2001, 0xdb8, 0, 0, 0, 0, 0, 5)));
    assert_eq!(addr.to_string(), "/ip6/2001:db8::5/udp/53");
}

#[test]
fn resolve_keeps_an_earlier_ip() {
    let mut addr = parse("/ip4/1.1.1.1/dns/a");
    addr.resolve(IpAddr::V4(Ipv4Addr::new(2, 2, 2, 2)));
    assert_eq!(addr.ip(), Some(IpAddr::V4(Ipv4Addr::new(1, 1, 1, 1))));
    assert_eq!(addr.to_string(), "/ip4/1.1.1.1/ip4/2.2.2.2");
    let mut plain = parse("/tcp/80/http");
    plain.resolve(IpAddr::V4(Ipv4Addr::new(2, 2, 2, 2)));
    assert_eq!(plain, parse("/tcp/80/http"));
}

#[test]
fn host_port_prefers_ip_over_name() {
    let hp = |s: &str| parse(s).host_port();
    assert_eq!(
        hp("/dns/example.org/ip4/10.0.0.1/tcp/80").unwrap(),
        ("10.0.0.1".to_string(), 80)
    );
    assert_eq!(
        hp("/dns6/example.org/udp/53").unwrap(),
        ("example.org".to_string(), 53)
    );
    assert_eq!(hp("/ip6/::1/quic").unwrap(), ("::1".to_string(), 443));
    match hp("/ip4/10.0.0.1") {
        Err(StackAddrError::MissingPart(what)) => assert_eq!(what, "transport port"),
        other => panic!("{:?}", other),
    }
    match hp("/tcp/80") {
        Err(StackAddrError::MissingPart(what)) => assert_eq!(what, "ip or dns name"),
        other => panic!("{:?}", other),
    }
    match hp("") {
        Err(StackAddrError::MissingPart(what)) => assert_eq!(what, "transport port"),
        other => panic!("{:?}", other),
    }
}

#[test]
fn socket_addr_needs_ip_and_port() {
    assert_eq!(
        parse("/ip4/10.0.0.1/tcp/80").socket_addr(),
        Some((IpAddr::V4(Ipv4Addr::new(10, 0, 0, 1)), 80))
    );
    assert_eq!(parse("/dns/x/tcp/80").socket_addr(), None);
    assert_eq!(parse("/ip4/10.0.0.1").socket_addr(), None);
}

#[test]
fn protocols_leaves_out_other_segments() {
    let addr = parse("/ip4/1.2.3.4/meta/a/b/tcp/80/files/node/MY/tls");
    assert_eq!(
        addr.protocols(),
        vec![
            &Protocol::Ip4(Ipv4Addr::new(1, 2, 3, 4)),
            &Protocol::Tcp(80),
            &Protocol::Tls
        ]
    );
    assert!(parse("/a/b").protocols().is_empty());
}

#[test]
fn protocol_classes() {
    assert!(Protocol::Tcp(1).is_transport());
    assert!(Protocol::Quic.is_transport());
    assert!(Protocol::WebTransport(1).is_transport());
    assert!(!Protocol::Tls.is_transport());
    assert!(!Protocol::Ip4(Ipv4Addr::new(1, 2, 3, 4)).is_transport());
    assert!(Protocol::Ip4(Ipv4Addr::new(1, 2, 3, 4)).is_address());
    assert!(Protocol::Dns6("x".to_string()).is_address());
    assert!(!Protocol::Onion("x".to_string()).is_address());
    assert!(!Protocol::Udp(1).is_address());
}

#[test]
fn supports_compares_variants_not_payloads() {
    let addr = parse("/ip4/1.2.3.4/tcp/80/tls/dns/example.org");
    assert!(addr.supports(&Protocol::Ip4(Ipv4Addr::new(9, 9, 9, 9))));
    assert!(addr.supports(&Protocol::Tcp(1)));
    assert!(addr.supports(&Protocol::Tls));
    assert!(addr.supports(&Protocol::Dns("other".to_string())));
    assert!(!addr.supports(&Protocol::Dns4("example.org".to_string())));
    assert!(!addr.supports(&Protocol::Udp(80)));
    assert!(!addr.supports(&Protocol::Ip6(Ipv6Addr::new(0, 0, 0, 0, 0, 0, 0, 1))));
    assert!(!addr.supports(&Protocol::Quic));
    assert!(!StackAddr::empty().supports(&Protocol::Tls));
    assert!(!parse("/tls/x").supports(&Protocol::Custom("tls".to_string())));
    assert!(Protocol::Ws(1).same_variant(&Protocol::Ws(2)));
    assert!(!Protocol::Ws(1).same_variant(&Protocol::Wss(1)));
    assert!(Protocol::Onion("a".to_string()).same_variant(&Protocol::Onion("b".to_string())));
    assert!(!Protocol::Http.same_variant(&Protocol::Https));
}
