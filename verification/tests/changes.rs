use bytes::Bytes;
use stackaddr::{
    Identity, IpAddr, Ipv4Addr, Ipv6Addr, MacAddr, Protocol, Segment, StackAddr, StackAddrError,
    Uuid,
};

fn parse(s: &str) -> StackAddr {
    StackAddr::from_str(s).unwrap()
}

fn tcp(p: u16) -> Segment {
    Segment::Protocol(Protocol::Tcp(p))
}

#[test]
fn builders_append_in_order() {
    let addr = StackAddr::empty()
        .with_mac(MacAddr::new(1, 2, 3, 4, 5, 6))
        .with_ipv4(Ipv4Addr::new(10, 0, 0, 1))
        .with_ipv6(Ipv6Addr::new(0, 0, 0, 0, 0, 0, 0, 1))
        .with_ip(IpAddr::V4(Ipv4Addr::new(10, 0, 0, 2)))
        .with_ip(IpAddr::V6(Ipv6Addr::new(1, 0, 0, 0, 0, 0, 0, 0)))
        .with_dns_name("a")
        .with_dns4_name("b")
        .with_dns6_name("c")
        .with_protocol(Protocol::Udp(9))
        .with_identity(Identity::PeerId(Bytes::from_static(b"foo")))
        .with_path("p")
        .with_meta("k", "v")
        .with(Segment::Protocol(Protocol::Http));
    assert_eq!(
        addr.to_string(),
        "/mac/01:02:03:04:05:06/ip4/10.0.0.1/ip6/::1/ip4/10.0.0.2/ip6/1::/dns/a/dns4/b/dns6/c\
         /udp/9/peer/MZXW6/p/meta/k/v/http"
    );
    assert_eq!(addr.segments().len(), 13);
}

#[test]
fn try_with_mac_str_reads_or_refuses() {
    let addr = StackAddr::empty()
        .try_with_mac_str("AA:bb:0c:d:e:ff")
        .unwrap();
    assert_eq!(addr.mac(), Some(MacAddr::new(0xaa, 0xbb, 0x0c, 0xd, 0xe, 0xff)));
    match StackAddr::empty().try_with_mac_str("aa-bb-cc-dd-ee-ff") {
        Err(StackAddrError::InvalidEncoding(what)) => assert_eq!(what, "mac"),
        other => panic!("{:?}", other),
    }
}

#[test]
fn new_and_from_parts_keep_the_segments() {
    let parts = vec![tcp(1), Segment::Path("x".to_string())];
    let a = StackAddr::new(parts.clone());
    let b = StackAddr::from_parts(&parts);
    assert_eq!(a, b);
    assert_eq!(a.segments(), &parts[..]);
    assert_eq!(a.clone(), a);
    assert_ne!(a, StackAddr::empty());
    assert_ne!(a, StackAddr::new(vec![tcp(1)]));
    assert_ne!(a, StackAddr::new(vec![tcp(1), Segment::Path("y".to_string())]));
}

#[test]
fn push_and_pop_work_at_the_tail() {
    let mut addr = StackAddr::empty();
    assert!(addr.pop().is_none());
    addr.push(tcp(1));
    addr.push(tcp(2));
    assert_eq!(addr.to_string(), "/tcp/1/tcp/2");
    assert_eq!(addr.pop(), Some(tcp(2)));
    assert_eq!(addr.pop(), Some(tcp(1)));
    assert_eq!(addr.pop(), None);
    assert!(addr.is_empty());
}

#[test]
fn contains_compares_whole_segments() {
    let addr = parse("/ip4/1.2.3.4/tcp/80/meta/a/b/node/MZXW6");
    assert!(addr.contains(&tcp(80)));
    assert!(!addr.contains(&tcp(81)));
    assert!(!addr.contains(&Segment::Protocol(Protocol::Udp(80))));
    assert!(addr.contains(&Segment::Metadata("a".to_string(), "b".to_string())));
    assert!(!addr.contains(&Segment::Metadata("a".to_string(), "c".to_string())));
    assert!(addr.contains(&Segment::Identity(Identity::NodeId(Bytes::from_static(b"foo")))));
    assert!(!addr.contains(&Segment::Identity(Identity::PeerId(Bytes::from_static(b"foo")))));
    assert!(!StackAddr::empty().contains(&tcp(80)));
}

#[test]
fn replace_changes_the_first_match_only() {
    let mut addr = parse("/tcp/1/udp/2/tcp/1");
    assert!(addr.replace(&tcp(1), tcp(9)));
    assert_eq!(addr.to_string(), "/tcp/9/udp/2/tcp/1");
    assert!(!addr.replace(&tcp(7), tcp(8)));
    assert_eq!(addr.to_string(), "/tcp/9/udp/2/tcp/1");
}

#[test]
fn replace_all_counts_the_matches() {
    let mut addr = parse("/tcp/1/udp/2/tcp/1/tcp/3/tcp/1");
    assert_eq!(addr.replace_all(&tcp(1), tcp(9)), 3);
    assert_eq!(addr.to_string(), "/tcp/9/udp/2/tcp/9/tcp/3/tcp/9");
    assert_eq!(addr.replace_all(&tcp(1), tcp(9)), 0);
    assert_eq!(addr.replace_all(&tcp(9), tcp(9)), 3);
    assert_eq!(addr.to_string(), "/tcp/9/udp/2/tcp/9/tcp/3/tcp/9");
}

#[test]
fn remove_takes_the_first_match_only() {
    let mut addr = parse("/tcp/1/udp/2/tcp/1");
    assert!(addr.remove(&tcp(1)));
    assert_eq!(addr.to_string(), "/udp/2/tcp/1");
    assert!(!addr.remove(&tcp(7)));
    assert!(addr.remove(&tcp(1)));
    assert!(!addr.remove(&tcp(1)));
    assert_eq!(addr.to_string(), "/udp/2");
}

#[test]
fn remove_all_then_contains_is_false() {
    let mut addr = parse("/tcp/1/tcp/1/udp/2/tcp/1/http/tcp/1");
    assert_eq!(addr.remove_all(&tcp(1)), 4);
    assert!(!addr.contains(&tcp(1)));
    assert_eq!(addr.to_string(), "/udp/2/http");
    assert_eq!(addr.remove_all(&tcp(1)), 0);
    assert_eq!(addr.to_string(), "/udp/2/http");
    let mut all = parse("/http/http");
    assert_eq!(all.remove_all(&Segment::Protocol(Protocol::Http)), 2);
    assert!(all.is_empty());
}

#[test]
fn segments_compare_by_what_they_hold() {
    let u = Uuid::from_bytes([7; 16]);
    let v = Uuid::from_bytes([8; 16]);
    assert_eq!(Identity::Uuid(u), Identity::Uuid(u));
    assert_ne!(Identity::Uuid(u), Identity::Uuid(v));
    assert_ne!(
        Identity::NodeId(Bytes::from_static(b"a")),
        Identity::PeerId(Bytes::from_static(b"a"))
    );
    assert_eq!(
        Identity::NodeId(Bytes::from(vec![1, 2, 3])),
        Identity::NodeId(Bytes::from_static(&[1, 2, 3]))
    );
    assert_ne!(
        Identity::Custom { kind: "a".to_string(), id: Bytes::from_static(b"x") },
        Identity::Custom { kind: "b".to_string(), id: Bytes::from_static(b"x") }
    );
    assert_ne!(Protocol::Tls, Protocol::Quic);
    assert_eq!(Protocol::Tls, Protocol::Tls);
    assert_ne!(Protocol::Dns("a".to_string()), Protocol::Dns4("a".to_string()));
    assert_ne!(Protocol::Ws(1), Protocol::Ws(2));
    assert_ne!(Segment::Path("tls".to_string()), Segment::Protocol(Protocol::Tls));
    let seg = Segment::Identity(Identity::Custom {
        kind: "k".to_string(),
        id: Bytes::from_static(b"bytes"),
    });
    assert_eq!(seg.clone(), seg);
    assert_eq!(Protocol::Onion("x".to_string()).clone(), Protocol::Onion("x".to_string()));
}
