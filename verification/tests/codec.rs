use bytes::Bytes;
use stackaddr::{Identity, MacAddr, Protocol, Uuid};

#[test]
fn mac_text_is_lower_case_hex_pairs() {
    assert_eq!(
        MacAddr::new(0, 1, 0x0a, 0xa0, 0xff, 0x7f).to_string(),
        "00:01:0a:a0:ff:7f"
    );
    assert_eq!(
        Protocol::Mac(MacAddr::new(0xAB, 0xCD, 0xEF, 0, 0, 0)).to_string(),
        "/mac/ab:cd:ef:00:00:00"
    );
    assert_eq!(MacAddr::new(1, 2, 3, 4, 5, 6).octets(), [1, 2, 3, 4, 5, 6]);
}

#[test]
fn mac_parse_reads_six_hex_fields() {
    let m = MacAddr::new(0xaa, 0xbb, 0xcc, 0xdd, 0xee, 0xff);
    assert_eq!(MacAddr::parse("aa:bb:cc:dd:ee:ff"), Some(m));
    assert_eq!(MacAddr::parse("AA:BB:CC:DD:EE:FF"), Some(m));
    assert_eq!(MacAddr::parse("a:b:c:d:e:f"), Some(MacAddr::new(10, 11, 12, 13, 14, 15)));
    assert_eq!(
        MacAddr::parse("+a:00b:0000c:d:e:+0f"),
        Some(MacAddr::new(10, 11, 12, 13, 14, 15))
    );
    for bad in [
        "", "aa", "aa:bb:cc:dd:ee", "aa:bb:cc:dd:ee:ff:00", "aa:bb:cc:dd:ee:", ":bb:cc:dd:ee:ff",
        "aa:bb:cc:dd:ee:fg", "aa:bb:cc:dd:ee:100", "aa-bb-cc-dd-ee-ff", "aabbccddeeff",
        "aa:bb:cc:dd:ee:+", "aa:bb:cc:dd:ee:-1", "aa:bb:cc:dd:ee:++1", "aa:bb:cc:dd:ee: f",
    ] {
        assert_eq!(MacAddr::parse(bad), None, "{:?}", bad);
    }
    assert!("zz".parse::<MacAddr>().is_err());
}

#[test]
fn mac_text_reads_back() {
    for m in [
        MacAddr::new(0, 0, 0, 0, 0, 0),
        MacAddr::new(255, 255, 255, 255, 255, 255),
        MacAddr::new(0x01, 0x23, 0x45, 0x67, 0x89, 0xab),
    ] {
        assert_eq!(MacAddr::parse(&m.to_string()), Some(m));
    }
}

#[test]
fn uuid_text_is_bare_lower_case_hex() {
    let u = Uuid::from_bytes([
        0x00, 0x01, 0x0a, 0xa0, 0xff, 0x7f, 0x80, 0x10, 0xde, 0xad, 0xbe, 0xef, 0x12, 0x34, 0x56,
        0x78,
    ]);
    assert_eq!(u.to_string(), "00010aa0ff7f8010deadbeef12345678");
    assert_eq!(Uuid::parse_str("00010aa0ff7f8010deadbeef12345678"), Some(u));
    assert_eq!(Uuid::parse_str("00010AA0-FF7F-8010-DEAD-BEEF12345678"), Some(u));
    assert_eq!(u.as_bytes()[2], 0x0a);
}

#[test]
fn uuid_parse_refuses_other_shapes() {
    for bad in [
        "",
        "00010aa0ff7f8010deadbeef1234567",
        "00010aa0ff7f8010deadbeef123456789",
        "00010aa0ff7f8010deadbeef1234567g",
        "00010aa0-ff7f-8010-dead-beef1234567",
        "00010aa0ff7f-8010-dead-beef-12345678",
        "00010aa0_ff7f_8010_dead_beef12345678",
        "{00010aa0-ff7f-8010-dead-beef12345678",
        "(00010aa0-ff7f-8010-dead-beef12345678)",
        "{00010aa0ff7f8010deadbeef12345678}",
        "urn:uuid:00010aa0ff7f8010deadbeef12345678",
        "urn-uuid-00010aa0-ff7f-8010-dead-beef12345678",
        "０0010aa0ff7f8010deadbeef12345678",
    ] {
        assert_eq!(Uuid::parse_str(bad), None, "{:?}", bad);
    }
}

#[test]
fn base32_text_follows_rfc_4648() {
    let text = |b: &'static [u8]| Identity::NodeId(Bytes::from_static(b)).to_base32();
    assert_eq!(text(b""), "");
    assert_eq!(text(b"f"), "MY");
    assert_eq!(text(b"fo"), "MZXQ");
    assert_eq!(text(b"foo"), "MZXW6");
    assert_eq!(text(b"foob"), "MZXW6YQ");
    assert_eq!(text(b"fooba"), "MZXW6YTB");
    assert_eq!(text(b"foobar"), "MZXW6YTBOI");
}

#[test]
fn base32_text_has_a_character_for_every_five_bits() {
    for n in 0..=20usize {
        let id = Identity::PeerId(Bytes::from(vec![0xa5u8; n]));
        let text = id.to_base32();
        assert_eq!(text.len(), (n * 8 + 4) / 5);
        assert!(text.chars().all(|c| ('A'..='Z').contains(&c) || ('2'..='7').contains(&c)));
        assert_eq!(
            Identity::from_base32_peer(&text).unwrap(),
            id
        );
    }
}

#[test]
fn base32_decode_gives_bytes_or_the_named_error() {
    assert_eq!(
        Identity::from_base32_node("MZXW6YTBOI").unwrap(),
        Identity::NodeId(Bytes::from_static(b"foobar"))
    );
    assert_eq!(
        Identity::from_base32_custom("kind", "MZXW6").unwrap(),
        Identity::Custom { kind: "kind".to_string(), id: Bytes::from_static(b"foo") }
    );
    assert_eq!(
        Identity::from_base32_node("mzxw6").unwrap_err().to_string(),
        "Invalid encoding: base32 node id"
    );
    assert_eq!(
        Identity::from_base32_peer("MZXW6=").unwrap_err().to_string(),
        "Invalid encoding: base32 peer id"
    );
    assert_eq!(
        Identity::from_base32_custom("kind", "M1").unwrap_err().to_string(),
        "Invalid encoding: base32 identity"
    );
}

#[test]
fn decoded_results_become_identities() {
    assert_eq!(
        Identity::node_from(Some(vec![1, 2, 3])).unwrap(),
        Identity::NodeId(Bytes::from_static(&[1, 2, 3]))
    );
    assert_eq!(
        Identity::peer_from(Some(vec![])).unwrap(),
        Identity::PeerId(Bytes::new())
    );
    assert_eq!(
        Identity::custom_from("k", Some(vec![9])).unwrap(),
        Identity::Custom { kind: "k".to_string(), id: Bytes::from_static(&[9]) }
    );
    assert!(Identity::node_from(None).is_err());
    assert!(Identity::peer_from(None).is_err());
    assert!(Identity::custom_from("k", None).is_err());
}

#[test]
fn base64url_text_is_unpadded_and_url_safe() {
    let text = |b: &'static [u8]| Identity::NodeId(Bytes::from_static(b)).to_base64url();
    assert_eq!(text(b""), "");
    assert_eq!(text(b"f"), "Zg");
    assert_eq!(text(b"fo"), "Zm8");
    assert_eq!(text(b"foo"), "Zm9v");
    assert_eq!(text(&[0xfb, 0xff]), "-_8");
    assert_eq!(
        Identity::Uuid(Uuid::from_bytes([0; 16])).to_base64url(),
        "AAAAAAAAAAAAAAAAAAAAAA"
    );
}

#[test]
fn id_bytes_is_one_view_of_every_variant() {
    assert_eq!(Identity::NodeId(Bytes::from_static(b"abc")).id_bytes(), b"abc");
    assert_eq!(Identity::PeerId(Bytes::from(vec![1u8, 2])).id_bytes(), &[1, 2]);
    assert_eq!(
        Identity::Custom { kind: "k".to_string(), id: Bytes::from_static(b"z") }.id_bytes(),
        b"z"
    );
    assert_eq!(Identity::Uuid(Uuid::from_bytes([3; 16])).id_bytes(), &[3u8; 16]);
}

#[test]
fn tokens_are_appended_behind_a_slash() {
    let mut out = String::from("/a");
    stackaddr::segment::protocol::append_token(&mut out, "b");
    stackaddr::segment::protocol::append_port(&mut out, 8080);
    stackaddr::segment::protocol::append_token(&mut out, "");
    assert_eq!(out, "/a/b/8080/");
}

#[test]
fn mac_from_str_gives_the_address_or_the_encoding_error() {
    assert_eq!(
        "01:23:45:67:89:ab".parse::<MacAddr>().unwrap(),
        MacAddr::new(0x01, 0x23, 0x45, 0x67, 0x89, 0xab)
    );
    match "01:23:45:67:89".parse::<MacAddr>() {
        Err(stackaddr::StackAddrError::InvalidEncoding(what)) => assert_eq!(what, "mac"),
        other => panic!("{:?}", other),
    }
}
