use stackaddr::{MacAddr, Protocol};

#[test]
fn protocol_test_display_macaddr() {
    let mac = MacAddr::new(0xaa, 0xbb, 0xcc, 0xdd, 0xee, 0xff);
    let proto = vec![
        Protocol::Mac(mac),
        Protocol::Ip4("192.168.10.10".parse().unwrap()),
    ];
    let text = proto.iter().map(|p| p.to_string()).collect::<String>();
    assert_eq!(text, "/mac/aa:bb:cc:dd:ee:ff/ip4/192.168.10.10");
}

#[test]
fn protocol_test_display_ip4_quic() {
    let proto = vec![
        Protocol::Ip4("127.0.0.1".parse().unwrap()),
        Protocol::Udp(4433),
        Protocol::Quic,
    ];
    let text = proto.iter().map(|p| p.to_string()).collect::<String>();
    assert_eq!(text, "/ip4/127.0.0.1/udp/4433/quic");
}

#[test]
fn protocol_test_display_ip6_tcp_https() {
    let proto = vec![
        Protocol::Ip6("::1".parse().unwrap()),
        Protocol::Tcp(443),
        Protocol::Https,
    ];
    let text = proto.iter().map(|p| p.to_string()).collect::<String>();
    assert_eq!(text, "/ip6/::1/tcp/443/https");
}
