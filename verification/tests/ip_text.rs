use stackaddr::{IpAddr, Ipv4Addr, Ipv6Addr};

#[test]
fn ipv4_text_is_dotted_quad() {
    assert_eq!(Ipv4Addr::new(192, 168, 1, 1).to_string(), "192.168.1.1");
    assert_eq!(Ipv4Addr::new(0, 0, 0, 0).to_string(), "0.0.0.0");
    assert_eq!(Ipv4Addr::new(255, 255, 255, 255).to_string(), "255.255.255.255");
    assert_eq!(Ipv4Addr::new(10, 0, 100, 9).to_string(), "10.0.100.9");
}

#[test]
fn ipv4_parse_accepts_only_plain_quads() {
    assert_eq!(Ipv4Addr::parse("1.2.3.4"), Some(Ipv4Addr::new(1, 2, 3, 4)));
    assert_eq!(Ipv4Addr::parse("255.0.10.99"), Some(Ipv4Addr::new(255, 0, 10, 99)));
    for bad in [
        "", "1", "1.2.3", "1.2.3.4.5", "1.2.3.", ".1.2.3", "1..2.3", "256.1.1.1", "01.2.3.4",
        "1.2.3.04", "1.2.3.4 ", " 1.2.3.4", "+1.2.3.4", "1.2.3.a", "1.2.3.1000", "00.0.0.0",
        "1.2.3.-4", "１.2.3.4",
    ] {
        assert_eq!(Ipv4Addr::parse(bad), None, "{:?}", bad);
    }
}

#[test]
fn ipv6_text_compresses_first_longest_zero_run() {
    assert_eq!(Ipv6Addr::new(0, 0, 0, 0, 0, 0, 0, 0).to_string(), "::");
    assert_eq!(Ipv6Addr::new(0, 0, 0, 0, 0, 0, 0, 1).to_string(), "::1");
    assert_eq!(Ipv6Addr::new(1, 0, 0, 0, 0, 0, 0, 0).to_string(), "1::");
    assert_eq!(
        Ipv6Addr::new(0x2001, 0xdb8, 0, 0, 0, 0, 0, 1).to_string(),
        "2001:db8::1"
    );
    assert_eq!(
        Ipv6Addr::new(1, 0, 0, 2, 0, 0, 0, 3).to_string(),
        "1:0:0:2::3"
    );
    assert_eq!(
        Ipv6Addr::new(1, 0, 0, 2, 3, 0, 0, 4).to_string(),
        "1::2:3:0:0:4"
    );
    assert_eq!(
        Ipv6Addr::new(1, 0, 2, 3, 4, 5, 6, 7).to_string(),
        "1:0:2:3:4:5:6:7"
    );
    assert_eq!(
        Ipv6Addr::new(0xa, 0xb, 0xc, 0xd, 0xe, 0xf, 0x10, 0xffff).to_string(),
        "a:b:c:d:e:f:10:ffff"
    );
}

#[test]
fn ipv6_text_of_mapped_address_ends_in_quad() {
    assert_eq!(
        Ipv6Addr::new(0, 0, 0, 0, 0, 0xffff, 0xc0a8, 0x0101).to_string(),
        "::ffff:192.168.1.1"
    );
    assert_eq!(
        Ipv6Addr::new(0, 0, 0, 0, 0, 0, 0xc0a8, 0x0101).to_string(),
        "::c0a8:101"
    );
}

#[test]
fn ipv6_parse_reads_every_written_form() {
    assert_eq!(Ipv6Addr::parse("::"), Some(Ipv6Addr::new(0, 0, 0, 0, 0, 0, 0, 0)));
    assert_eq!(Ipv6Addr::parse("::1"), Some(Ipv6Addr::new(0, 0, 0, 0, 0, 0, 0, 1)));
    assert_eq!(Ipv6Addr::parse("1::"), Some(Ipv6Addr::new(1, 0, 0, 0, 0, 0, 0, 0)));
    assert_eq!(
        Ipv6Addr::parse("2001:DB8::00a1"),
        Some(Ipv6Addr::new(0x2001, 0xdb8, 0, 0, 0, 0, 0, 0xa1))
    );
    assert_eq!(
        Ipv6Addr::parse("1:2:3:4:5:6:7:8"),
        Some(Ipv6Addr::new(1, 2, 3, 4, 5, 6, 7, 8))
    );
    assert_eq!(
        Ipv6Addr::parse("1:2:3:4:5:6:7::"),
        Some(Ipv6Addr::new(1, 2, 3, 4, 5, 6, 7, 0))
    );
    assert_eq!(
        Ipv6Addr::parse("::ffff:10.0.0.1"),
        Some(Ipv6Addr::new(0, 0, 0, 0, 0, 0xffff, 0x0a00, 0x0001))
    );
    assert_eq!(
        Ipv6Addr::parse("1:2:3:4:5:6:1.2.3.4"),
        Some(Ipv6Addr::new(1, 2, 3, 4, 5, 6, 0x0102, 0x0304))
    );
    assert_eq!(
        Ipv6Addr::parse("1:2:3:4:5::1.2.3.4"),
        Some(Ipv6Addr::new(1, 2, 3, 4, 5, 0, 0x0102, 0x0304))
    );
}

#[test]
fn ipv6_parse_refuses_what_is_no_address() {
    for bad in [
        "", ":", ":::", "1:::2", "::1::2", "1:2:3:4:5:6:7:8:9", "1:2:3:4:5:6:7",
        "::1:2:3:4:5:6:7:8", "1:2:3:4:5:6:7:8::", "12345::", "g::", "1.2.3.4", "1.2.3.4::",
        "1:1.2.3.4::", "1:2:3:4:5:6:7:1.2.3.4", "1:2:3:4:5:6::1.2.3.4", "::1.2.3.4:5",
        "::1.2.3.4444", "::1.2.3", "00001::", "::ffff:01.2.3.4", "fe80::1%eth0", "[::1]", " ::1",
        "::1 ", "1::2:3:4:5:6:7:8", ":1::", "1:", ":1", "1::2::", "::256.1.1.1",
    ] {
        assert_eq!(Ipv6Addr::parse(bad), None, "{:?}", bad);
    }
}

#[test]
fn ipv6_parse_fills_the_gap_with_zeros() {
    let cases: [(&str, [u16; 8]); 9] = [
        ("1::2", [1, 0, 0, 0, 0, 0, 0, 2]),
        ("::1:2:3:4:5:6:7", [0, 1, 2, 3, 4, 5, 6, 7]),
        ("::1.2.3.4", [0, 0, 0, 0, 0, 0, 0x0102, 0x0304]),
        ("0001:0002::0003", [1, 2, 0, 0, 0, 0, 0, 3]),
        ("ABCD:ef01::", [0xabcd, 0xef01, 0, 0, 0, 0, 0, 0]),
        ("1:2::3:4", [1, 2, 0, 0, 0, 0, 3, 4]),
        ("::0:0", [0, 0, 0, 0, 0, 0, 0, 0]),
        ("0::0", [0, 0, 0, 0, 0, 0, 0, 0]),
        ("1:2:3::4:5:6:7", [1, 2, 3, 0, 4, 5, 6, 7]),
    ];
    for (text, s) in cases {
        assert_eq!(
            Ipv6Addr::parse(text),
            Some(Ipv6Addr::new(s[0], s[1], s[2], s[3], s[4], s[5], s[6], s[7])),
            "{:?}",
            text
        );
    }
}

#[test]
fn ipv6_text_reads_back() {
    let cases: [([u16; 8], &str); 14] = [
        ([0, 0, 0, 0, 0, 0, 0, 0], "::"),
        ([0, 0, 0, 0, 0, 0, 0, 1], "::1"),
        ([1, 0, 0, 0, 0, 0, 0, 0], "1::"),
        ([1, 0, 0, 0, 0, 0, 0, 1], "1::1"),
        ([0, 0, 1, 0, 0, 0, 1, 0], "0:0:1::1:0"),
        ([1, 0, 0, 1, 0, 0, 1, 0], "1::1:0:0:1:0"),
        ([0, 1, 0, 1, 0, 1, 0, 1], "0:1:0:1:0:1:0:1"),
        ([0, 0, 0, 0, 0, 0xffff, 0x7f00, 1], "::ffff:127.0.0.1"),
        ([0, 0, 0, 0, 0, 0xffff, 0, 0], "::ffff:0.0.0.0"),
        ([0, 0, 0, 0, 0, 0, 0x7f00, 1], "::7f00:1"),
        ([0, 0, 0, 0, 0xffff, 0xffff, 1, 2], "::ffff:ffff:1:2"),
        (
            [0xfe80, 0, 0, 0, 0x0202, 0xb3ff, 0xfe1e, 0x8329],
            "fe80::202:b3ff:fe1e:8329",
        ),
        (
            [0xffff, 0xffff, 0xffff, 0xffff, 0xffff, 0xffff, 0xffff, 0xffff],
            "ffff:ffff:ffff:ffff:ffff:ffff:ffff:ffff",
        ),
        ([0x10, 0x100, 0x1000, 0, 0, 0xf, 0xff, 0xfff], "10:100:1000::f:ff:fff"),
    ];
    for (s, text) in cases {
        let a = Ipv6Addr::new(s[0], s[1], s[2], s[3], s[4], s[5], s[6], s[7]);
        assert_eq!(a.to_string(), text);
        assert_eq!(Ipv6Addr::parse(text), Some(a));
    }
}

#[test]
fn ip_addr_parse_tries_both_families() {
    assert_eq!(
        IpAddr::parse("10.1.2.3"),
        Some(IpAddr::V4(Ipv4Addr::new(10, 1, 2, 3)))
    );
    assert_eq!(
        IpAddr::parse("::1"),
        Some(IpAddr::V6(Ipv6Addr::new(0, 0, 0, 0, 0, 0, 0, 1)))
    );
    assert_eq!(IpAddr::parse("localhost"), None);
    assert_eq!(IpAddr::V4(Ipv4Addr::new(8, 8, 4, 4)).to_string(), "8.8.4.4");
    assert_eq!(
        IpAddr::V6(Ipv6Addr::new(0xfe80, 0, 0, 0, 0, 0, 0, 2)).to_string(),
        "fe80::2"
    );
    assert!("nope".parse::<IpAddr>().is_err());
    assert!("1.2.3".parse::<Ipv4Addr>().is_err());
    assert!("1:2:3".parse::<Ipv6Addr>().is_err());
}

#[test]
fn ip_accessors_give_the_parts() {
    assert_eq!(Ipv4Addr::new(1, 2, 3, 4).octets(), [1, 2, 3, 4]);
    assert_eq!(
        Ipv6Addr::new(1, 2, 3, 4, 5, 6, 7, 8).segments(),
        [1, 2, 3, 4, 5, 6, 7, 8]
    );
}

#[test]
fn from_str_gives_the_address_or_the_address_error() {
    assert_eq!("10.1.2.3".parse::<Ipv4Addr>().unwrap(), Ipv4Addr::new(10, 1, 2, 3));
    assert_eq!(
        "fe80::1".parse::<Ipv6Addr>().unwrap(),
        Ipv6Addr::new(0xfe80, 0, 0, 0, 0, 0, 0, 1)
    );
    assert_eq!(
        "10.1.2.3".parse::<IpAddr>().unwrap(),
        IpAddr::V4(Ipv4Addr::new(10, 1, 2, 3))
    );
    assert_eq!(
        "::".parse::<IpAddr>().unwrap(),
        IpAddr::V6(Ipv6Addr::new(0, 0, 0, 0, 0, 0, 0, 0))
    );
    assert!(matches!(
        "10.1.2".parse::<Ipv4Addr>(),
        Err(stackaddr::StackAddrError::InvalidAddress)
    ));
    assert!(matches!(
        "10.1.2.3".parse::<Ipv6Addr>(),
        Err(stackaddr::StackAddrError::InvalidAddress)
    ));
    assert!(matches!(
        "host".parse::<IpAddr>(),
        Err(stackaddr::StackAddrError::InvalidAddress)
    ));
}
