use bytes::Bytes;
use stackaddr::{
    Identity, Ipv4Addr, Ipv6Addr, MacAddr, Protocol, Segment, StackAddr, StackAddrError, Uuid,
};

fn parse(s: &str) -> Result<StackAddr, StackAddrError> {
    StackAddr::from_str(s)
}

fn missing(s: &str) -> &'static str {
    match parse(s) {
        Err(StackAddrError::MissingPart(what)) => what,
        other => panic!("{:?} gave {:?}", s, other),
    }
}

fn bad_encoding(s: &str) -> &'static str {
    match parse(s) {
        Err(StackAddrError::InvalidEncoding(what)) => what,
        other => panic!("{:?} gave {:?}", s, other),
    }
}

#[test]
fn empty_text_is_the_empty_address() {
    assert_eq!(parse("").unwrap(), StackAddr::empty());
    assert_eq!(parse("/").unwrap(), StackAddr::empty());
    assert_eq!(parse("////").unwrap(), StackAddr::empty());
    assert!(parse("").unwrap().is_empty());
    assert_eq!(StackAddr::empty().to_string(), "");
}

#[test]
fn slashes_at_the_ends_and_doubled_slashes_are_dropped() {
    let plain = parse("/ip4/10.0.0.1/tcp/80").unwrap();
    assert_eq!(parse("ip4/10.0.0.1/tcp/80").unwrap(), plain);
    assert_eq!(parse("/ip4/10.0.0.1/tcp/80/").unwrap(), plain);
    assert_eq!(parse("//ip4///10.0.0.1//tcp/80//").unwrap(), plain);
    assert_eq!(plain.to_string(), "/ip4/10.0.0.1/tcp/80");
}

#[test]
fn every_keyword_writes_its_segment() {
    let addr = parse(
        "/mac/00:1b:44:11:3a:b7/ip4/1.2.3.4/ip6/fe80::1/dns/a.example/dns4/b.example\
         /dns6/c.example/tcp/1/udp/2/tls/quic/http/https/ws/3/wss/4/wtr/5/webrtc\
         /onion/abcdefghijklmnop/custom/gopher/meta/k/v/some/path",
    )
    .unwrap();
    let expected = StackAddr::new(vec![
        Segment::Protocol(Protocol::Mac(MacAddr::new(0, 0x1b, 0x44, 0x11, 0x3a, 0xb7))),
        Segment::Protocol(Protocol::Ip4(Ipv4Addr::new(1, 2, 3, 4))),
        Segment::Protocol(Protocol::Ip6(Ipv6Addr::new(0xfe80, 0, 0, 0, 0, 0, 0, 1))),
        Segment::Protocol(Protocol::Dns("a.example".to_string())),
        Segment::Protocol(Protocol::Dns4("b.example".to_string())),
        Segment::Protocol(Protocol::Dns6("c.example".to_string())),
        Segment::Protocol(Protocol::Tcp(1)),
        Segment::Protocol(Protocol::Udp(2)),
        Segment::Protocol(Protocol::Tls),
        Segment::Protocol(Protocol::Quic),
        Segment::Protocol(Protocol::Http),
        Segment::Protocol(Protocol::Https),
        Segment::Protocol(Protocol::Ws(3)),
        Segment::Protocol(Protocol::Wss(4)),
        Segment::Protocol(Protocol::WebTransport(5)),
        Segment::Protocol(Protocol::WebRTC),
        Segment::Protocol(Protocol::Onion("abcdefghijklmnop".to_string())),
        Segment::Protocol(Protocol::Custom("gopher".to_string())),
        Segment::Metadata("k".to_string(), "v".to_string()),
        Segment::Path("some".to_string()),
        Segment::Path("path".to_string()),
    ]);
    assert_eq!(addr, expected);
    assert_eq!(parse(&addr.to_string()).unwrap(), addr);
}

#[test]
fn identity_keywords_decode_their_tokens() {
    // "MZXW6YTBOI" is the base32 text of "foobar" (RFC 4648, section 10).
    let addr = parse("/node/MZXW6YTBOI/peer/MZXW6/identity/did/MY").unwrap();
    let expected = StackAddr::new(vec![
        Segment::Identity(Identity::NodeId(Bytes::from_static(b"foobar"))),
        Segment::Identity(Identity::PeerId(Bytes::from_static(b"foo"))),
        Segment::Identity(Identity::Custom {
            kind: "did".to_string(),
            id: Bytes::from_static(b"f"),
        }),
    ]);
    assert_eq!(addr, expected);
    assert_eq!(addr.to_string(), "/node/MZXW6YTBOI/peer/MZXW6/identity/did/MY");
}

#[test]
fn uuid_keyword_reads_all_four_forms() {
    let bytes = [
        0x55, 0x0e, 0x84, 0x00, 0xe2, 0x9b, 0x41, 0xd4, 0xa7, 0x16, 0x44, 0x66, 0x55, 0x44, 0x00,
        0x00,
    ];
    let expected = StackAddr::empty().with_identity(Identity::Uuid(Uuid::from_bytes(bytes)));
    for text in [
        "/uuid/550e8400e29b41d4a716446655440000",
        "/uuid/550E8400E29B41D4A716446655440000",
        "/uuid/550e8400-e29b-41d4-a716-446655440000",
        "/uuid/{550e8400-e29b-41d4-a716-446655440000}",
        "/uuid/urn:uuid:550e8400-e29b-41d4-a716-446655440000",
        "/uuid/URN:UUID:550e8400-e29b-41d4-a716-446655440000",
    ] {
        assert_eq!(parse(text).unwrap(), expected, "{:?}", text);
    }
    assert_eq!(expected.to_string(), "/uuid/550e8400e29b41d4a716446655440000");
}

#[test]
fn missing_token_names_the_part() {
    assert_eq!(missing("/ip4"), "ip4 address");
    assert_eq!(missing("/ip6/"), "ip6 address");
    assert_eq!(missing("/dns"), "dns");
    assert_eq!(missing("/dns4"), "dns4");
    assert_eq!(missing("/dns6"), "dns6");
    assert_eq!(missing("/mac"), "mac address");
    assert_eq!(missing("/tcp/"), "tcp port");
    assert_eq!(missing("/udp"), "udp port");
    assert_eq!(missing("/ws"), "ws port");
    assert_eq!(missing("/wss"), "wss port");
    assert_eq!(missing("/wtr"), "wtr port");
    assert_eq!(missing("/onion"), "onion address");
    assert_eq!(missing("/custom"), "custom name");
    assert_eq!(missing("/node"), "node id");
    assert_eq!(missing("/peer"), "peer id");
    assert_eq!(missing("/uuid"), "uuid value");
    assert_eq!(missing("/identity"), "identity kind");
    assert_eq!(missing("/identity/kind"), "identity value");
    assert_eq!(missing("/meta"), "metadata key");
    assert_eq!(missing("/meta/key"), "metadata value");
    assert_eq!(missing("/ip4/1.2.3.4/tcp"), "tcp port");
}

#[test]
fn malformed_tokens_give_typed_errors() {
    assert!(matches!(parse("/ip4/1.2.3"), Err(StackAddrError::InvalidAddress)));
    assert!(matches!(parse("/ip4/::1"), Err(StackAddrError::InvalidAddress)));
    assert!(matches!(parse("/ip6/1.2.3.4"), Err(StackAddrError::InvalidAddress)));
    assert!(matches!(parse("/ip6/1:2"), Err(StackAddrError::InvalidAddress)));
    assert!(matches!(parse("/tcp/http"), Err(StackAddrError::InvalidPort)));
    assert!(matches!(parse("/tcp/65536"), Err(StackAddrError::InvalidPort)));
    assert!(matches!(parse("/udp/-1"), Err(StackAddrError::InvalidPort)));
    assert!(matches!(parse("/ws/+"), Err(StackAddrError::InvalidPort)));
    assert!(matches!(parse("/wss/80a"), Err(StackAddrError::InvalidPort)));
    assert!(matches!(parse("/wtr/ 80"), Err(StackAddrError::InvalidPort)));
    assert_eq!(bad_encoding("/mac/aa:bb:cc:dd:ee"), "mac");
    assert_eq!(bad_encoding("/mac/aa:bb:cc:dd:ee:fg"), "mac");
    assert_eq!(bad_encoding("/node/not-base32!"), "base32 node id");
    assert_eq!(bad_encoding("/peer/abc"), "base32 peer id");
    assert_eq!(bad_encoding("/identity/kind/0189"), "base32 identity");
    assert_eq!(bad_encoding("/uuid/1234"), "uuid");
    assert_eq!(bad_encoding("/node/MZXW6==="), "base32 node id");
}

#[test]
fn first_error_from_the_left_wins() {
    assert!(matches!(
        parse("/tcp/x/ip4/bad"),
        Err(StackAddrError::InvalidPort)
    ));
    assert!(matches!(
        parse("/ip4/bad/tcp"),
        Err(StackAddrError::InvalidAddress)
    ));
    assert_eq!(missing("/ip4/1.1.1.1/meta/only"), "metadata value");
}

#[test]
fn port_tokens_follow_the_integer_grammar() {
    let port = |s: &str| parse(s).unwrap().port();
    assert_eq!(port("/tcp/0"), Some(0));
    assert_eq!(port("/tcp/65535"), Some(65535));
    assert_eq!(port("/tcp/+443"), Some(443));
    assert_eq!(port("/tcp/00080"), Some(80));
    assert_eq!(port("/tcp/0000000000000000000000000000007"), Some(7));
    assert_eq!(parse("/tcp/+443").unwrap().to_string(), "/tcp/443");
}

#[test]
fn keyword_takes_the_next_token_whatever_it_is() {
    let addr = parse("/dns/tcp/80").unwrap();
    assert_eq!(
        addr,
        StackAddr::new(vec![
            Segment::Protocol(Protocol::Dns("tcp".to_string())),
            Segment::Path("80".to_string()),
        ])
    );
    let addr = parse("/meta/meta/meta/x").unwrap();
    assert_eq!(
        addr.segments(),
        &[
            Segment::Metadata("meta".to_string(), "meta".to_string()),
            Segment::Path("x".to_string()),
        ]
    );
    assert_eq!(missing("/meta/meta/meta/meta"), "metadata key");
}

#[test]
fn unknown_keyword_is_a_path_never_an_error() {
    let addr = parse("/IP4/1.2.3.4/Tcp/80/ip44").unwrap();
    assert_eq!(
        addr.segments(),
        &[
            Segment::Path("IP4".to_string()),
            Segment::Path("1.2.3.4".to_string()),
            Segment::Path("Tcp".to_string()),
            Segment::Path("80".to_string()),
            Segment::Path("ip44".to_string()),
        ]
    );
    assert_eq!(addr.to_string(), "/IP4/1.2.3.4/Tcp/80/ip44");
}

#[test]
fn text_beyond_ascii_passes_through() {
    let addr = parse("/dns/bücher.example/données/日本語").unwrap();
    assert_eq!(
        addr.segments(),
        &[
            Segment::Protocol(Protocol::Dns("bücher.example".to_string())),
            Segment::Path("données".to_string()),
            Segment::Path("日本語".to_string()),
        ]
    );
    assert_eq!(addr.to_string(), "/dns/bücher.example/données/日本語");
}

#[test]
fn from_str_trait_and_method_agree() {
    let text = "/ip4/127.0.0.1/udp/53";
    let by_trait: StackAddr = text.parse().unwrap();
    assert_eq!(by_trait, StackAddr::from_str(text).unwrap());
    assert!("/tcp".parse::<StackAddr>().is_err());
}

#[test]
fn error_messages_name_what_went_wrong() {
    assert_eq!(
        StackAddrError::MissingPart("tcp port").to_string(),
        "Missing tcp port"
    );
    assert_eq!(StackAddrError::InvalidAddress.to_string(), "Invalid IP address");
    assert_eq!(StackAddrError::InvalidPort.to_string(), "Invalid port");
    assert_eq!(
        StackAddrError::UnknownProtocol("foo".to_string()).to_string(),
        "Unknown protocol: foo"
    );
    assert_eq!(
        StackAddrError::InvalidEncoding("mac").to_string(),
        "Invalid encoding: mac"
    );
    assert_eq!(
        StackAddrError::ResolutionFailed("no such host".to_string()).to_string(),
        "Resolution failed: no such host"
    );
}
