use bytes::Bytes;
use rand::RngCore;
use stackaddr::{
    Identity, Ipv4Addr, Ipv6Addr, MacAddr, Protocol, Segment, StackAddr, Uuid,
};

fn random_bytes(n: usize) -> Vec<u8> {
    let mut buf = vec![0u8; n];
    rand::rng().fill_bytes(&mut buf);
    buf
}

fn sample() -> StackAddr {
    StackAddr::new(vec![
        Segment::Protocol(Protocol::Mac(MacAddr::new(0xde, 0xad, 0, 0x0f, 0xf0, 1))),
        Segment::Protocol(Protocol::Ip4(Ipv4Addr::new(198, 51, 100, 0))),
        Segment::Protocol(Protocol::Ip6(Ipv6Addr::new(0, 0, 0, 0, 0, 0xffff, 0x0102, 0x0304))),
        Segment::Protocol(Protocol::Ip6(Ipv6Addr::new(0x2001, 0, 0, 1, 0, 0, 0, 1))),
        Segment::Protocol(Protocol::Dns("example.org".to_string())),
        Segment::Protocol(Protocol::Dns4("four.example".to_string())),
        Segment::Protocol(Protocol::Dns6("six.example".to_string())),
        Segment::Protocol(Protocol::Tcp(0)),
        Segment::Protocol(Protocol::Udp(65535)),
        Segment::Protocol(Protocol::Tls),
        Segment::Protocol(Protocol::Quic),
        Segment::Protocol(Protocol::Http),
        Segment::Protocol(Protocol::Https),
        Segment::Protocol(Protocol::Ws(10)),
        Segment::Protocol(Protocol::Wss(100)),
        Segment::Protocol(Protocol::WebTransport(1000)),
        Segment::Protocol(Protocol::WebRTC),
        Segment::Protocol(Protocol::Onion("expyuzz4wqqyqhjn".to_string())),
        Segment::Protocol(Protocol::Custom("my-proto".to_string())),
        Segment::Identity(Identity::NodeId(Bytes::from(random_bytes(32)))),
        Segment::Identity(Identity::PeerId(Bytes::from(random_bytes(1)))),
        Segment::Identity(Identity::Uuid(Uuid::from_bytes(*uuid::Uuid::new_v4().as_bytes()))),
        Segment::Identity(Identity::Custom {
            kind: "did:key".to_string(),
            id: Bytes::from(random_bytes(7)),
        }),
        Segment::Metadata("env".to_string(), "prod".to_string()),
        Segment::Path("downloads".to_string()),
        Segment::Path("a.b-c_d".to_string()),
    ])
}

#[test]
fn parse_of_render_is_the_address() {
    for _ in 0..20 {
        let addr = sample();
        let text = addr.to_string();
        assert_eq!(StackAddr::from_str(&text).unwrap(), addr, "{}", text);
    }
}

#[test]
fn render_of_parse_is_the_canonical_text() {
    for text in [
        "",
        "/ip4/127.0.0.1/tcp/443/tls/http",
        "/ip6/::ffff:1.2.3.4/udp/1/quic",
        "/mac/00:00:00:00:00:00",
        "/uuid/00000000000000000000000000000000",
        "/node/AA/peer/74/identity/x/MZXW6YTBOI",
        "/dns/a/dns4/b/dns6/c/onion/d/custom/e/meta/f/g/h",
        "/ws/1/wss/2/wtr/3/webrtc/https",
    ] {
        assert_eq!(StackAddr::from_str(text).unwrap().to_string(), text);
    }
}

#[test]
fn identifier_bytes_of_every_length_read_back() {
    for n in 1..=40 {
        let id = Bytes::from(random_bytes(n));
        let addr = StackAddr::empty()
            .with_identity(Identity::NodeId(id.clone()))
            .with_identity(Identity::PeerId(id.clone()))
            .with_identity(Identity::Custom { kind: "k".to_string(), id });
        assert_eq!(StackAddr::from_str(&addr.to_string()).unwrap(), addr);
    }
}

#[test]
fn text_outside_the_grammar_does_not_read_back() {
    // an identifier without bytes has an empty text, which is no token
    let addr = StackAddr::empty().with_identity(Identity::NodeId(Bytes::new()));
    assert_eq!(addr.to_string(), "/node/");
    assert!(StackAddr::from_str("/node/").is_err());
    // a path that is a keyword reads as the keyword
    let addr = StackAddr::empty().with_path("tls");
    assert_ne!(StackAddr::from_str(&addr.to_string()).unwrap(), addr);
    // a text with a slash falls apart
    let addr = StackAddr::empty().with_path("a/b");
    assert_eq!(
        StackAddr::from_str(&addr.to_string()).unwrap(),
        StackAddr::empty().with_path("a").with_path("b")
    );
    // a token that decodes to no bytes is accepted, and is not canonical
    assert_eq!(
        StackAddr::from_str("/node/A").unwrap(),
        StackAddr::empty().with_identity(Identity::NodeId(Bytes::new()))
    );
}

fn pick<'a>(pool: &[&'a str]) -> &'a str {
    pool[(rand::rng().next_u32() as usize) % pool.len()]
}

#[test]
fn whatever_parses_reads_back_from_its_own_text() {
    let pool = [
        "ip4", "ip6", "dns", "dns4", "dns6", "mac", "tcp", "udp", "tls", "quic", "http", "https",
        "ws", "wss", "wtr", "webrtc", "onion", "custom", "node", "peer", "uuid", "identity",
        "meta", "1.2.3.4", "010.0.0.1", "::1", "0:0::0:1", "::ffff:9.8.7.6", "1:2:3:4:5:6:7:8",
        "aa:bb:cc:dd:ee:ff", "A:B:C:D:E:F", "80", "+80", "0080", "65536", "MZXW6", "MY", "mzxw6",
        "550e8400-e29b-41d4-a716-446655440000", "550E8400E29B41D4A716446655440000", "x", "",
        "example.org", "päth",
    ];
    let mut parsed = 0;
    for _ in 0..3000 {
        let n = (rand::rng().next_u32() % 7) as usize;
        let mut text = String::new();
        for _ in 0..n {
            text.push('/');
            text.push_str(pick(&pool));
        }
        if let Ok(addr) = StackAddr::from_str(&text) {
            parsed += 1;
            let canonical = addr.to_string();
            let again = StackAddr::from_str(&canonical).unwrap();
            assert_eq!(again, addr, "{:?} -> {:?}", text, canonical);
            assert_eq!(again.to_string(), canonical);
        }
    }
    assert!(parsed > 100);
}
