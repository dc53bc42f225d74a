//! The round trip between an address and its canonical text.

use crate::codec::{base32_text, lemma_base32_token};
use crate::error::ErrorView;
use crate::grammar::{keyword, parse, parse_at, parse_from, port_of_text, token_or_none, Keyword};
use crate::ip::{Ipv4Addr, Ipv6Addr};
use crate::mac::MacAddr;
use crate::model::render;
use crate::numeral::{
    dec_digit, dec_text, hex_pairs, lemma_dec_is_hex, lemma_dec_text, lemma_digits_free,
    lemma_hex_pairs,
};
use crate::segment::identity::IdentityView;
use crate::segment::protocol::{slashed, ProtocolView};
use crate::segment::SegmentView;
use crate::text::{find, is_token, lemma_find_is, lemma_tokens_are_tokens, tokens};
use crate::uid::{lemma_uuid_of_text_len, uuid_of_text};
use vstd::prelude::*;

verus! {

/// The keyword that the text of a segment starts with; a path has none.
pub open spec fn head_keyword(seg: SegmentView) -> Option<Keyword> {
    match seg {
        SegmentView::Protocol(p) => Some(
            match p {
                ProtocolView::Mac(_) => Keyword::Mac,
                ProtocolView::Ip4(_) => Keyword::Ip4,
                ProtocolView::Ip6(_) => Keyword::Ip6,
                ProtocolView::Dns(_) => Keyword::Dns,
                ProtocolView::Dns4(_) => Keyword::Dns4,
                ProtocolView::Dns6(_) => Keyword::Dns6,
                ProtocolView::Tcp(_) => Keyword::Tcp,
                ProtocolView::Udp(_) => Keyword::Udp,
                ProtocolView::Tls => Keyword::Tls,
                ProtocolView::Quic => Keyword::Quic,
                ProtocolView::Http => Keyword::Http,
                ProtocolView::Https => Keyword::Https,
                ProtocolView::Ws(_) => Keyword::Ws,
                ProtocolView::Wss(_) => Keyword::Wss,
                ProtocolView::WebTransport(_) => Keyword::Wtr,
                ProtocolView::WebRTC => Keyword::Webrtc,
                ProtocolView::Onion(_) => Keyword::Onion,
                ProtocolView::Custom(_) => Keyword::Custom,
            },
        ),
        SegmentView::Identity(i) => Some(
            match i {
                IdentityView::NodeId(_) => Keyword::Node,
                IdentityView::PeerId(_) => Keyword::Peer,
                IdentityView::Uuid(_) => Keyword::Uuid,
                IdentityView::Custom { .. } => Keyword::Identity,
            },
        ),
        SegmentView::Path(_) => None,
        SegmentView::Metadata(_, _) => Some(Keyword::Meta),
    }
}

/// Whether the text of a segment can be read back: each text in it is one
/// token, a path is no keyword, an identifier has bytes, and a UUID has
/// sixteen of them.
pub open spec fn grammatical(seg: SegmentView) -> bool {
    match seg {
        SegmentView::Protocol(p) => match p {
            ProtocolView::Dns(n) => is_token(n),
            ProtocolView::Dns4(n) => is_token(n),
            ProtocolView::Dns6(n) => is_token(n),
            ProtocolView::Onion(n) => is_token(n),
            ProtocolView::Custom(n) => is_token(n),
            _ => true,
        },
        SegmentView::Identity(i) => match i {
            IdentityView::NodeId(b) => b.len() > 0,
            IdentityView::PeerId(b) => b.len() > 0,
            IdentityView::Uuid(b) => b.len() == 16,
            IdentityView::Custom { kind, id } => is_token(kind) && id.len() > 0,
        },
        SegmentView::Path(p) => is_token(p) && keyword(p) is None,
        SegmentView::Metadata(k, v) => is_token(k) && is_token(v),
    }
}

/// Whether every segment of `a` can be read back from its text, and every
/// base32 text in `a` is known to decode to its bytes.
pub open spec fn canonical(a: Seq<SegmentView>) -> bool {
    forall|i: int| 0 <= i < a.len() ==> grammatical(#[trigger] a[i]) && a[i].faithful()
}

/// The tokens of all segments of `a`, in order.
pub open spec fn all_tokens(a: Seq<SegmentView>) -> Seq<Seq<char>>
    decreases a.len(),
{
    if a.len() == 0 {
        Seq::empty()
    } else {
        a[0].tokens() + all_tokens(a.skip(1))
    }
}

/// Whether every element of `t` is a token.
pub open spec fn all_are_tokens(t: Seq<Seq<char>>) -> bool {
    forall|k: int| 0 <= k < t.len() ==> is_token(#[trigger] t[k])
}

/// The length of a text with its first and its last character, which
/// together tell the keywords apart.
pub open spec fn mark(t: Seq<char>) -> (nat, char, char) {
    (t.len(), t[0], t[t.len() - 1])
}

/// The mark of a keyword.
pub open spec fn keyword_mark(k: Keyword) -> (nat, char, char) {
    match k {
        Keyword::Ip4 => (3, 'i', '4'),
        Keyword::Ip6 => (3, 'i', '6'),
        Keyword::Dns => (3, 'd', 's'),
        Keyword::Dns4 => (4, 'd', '4'),
        Keyword::Dns6 => (4, 'd', '6'),
        Keyword::Mac => (3, 'm', 'c'),
        Keyword::Tcp => (3, 't', 'p'),
        Keyword::Udp => (3, 'u', 'p'),
        Keyword::Tls => (3, 't', 's'),
        Keyword::Quic => (4, 'q', 'c'),
        Keyword::Http => (4, 'h', 'p'),
        Keyword::Https => (5, 'h', 's'),
        Keyword::Ws => (2, 'w', 's'),
        Keyword::Wss => (3, 'w', 's'),
        Keyword::Wtr => (3, 'w', 'r'),
        Keyword::Webrtc => (6, 'w', 'c'),
        Keyword::Onion => (5, 'o', 'n'),
        Keyword::Custom => (6, 'c', 'm'),
        Keyword::Node => (4, 'n', 'e'),
        Keyword::Peer => (4, 'p', 'r'),
        Keyword::Uuid => (4, 'u', 'd'),
        Keyword::Identity => (8, 'i', 'y'),
        Keyword::Meta => (4, 'm', 'a'),
    }
}

/// The text of each keyword has the mark of the keyword, and holds no
/// slash.
pub proof fn lemma_keyword_marks()
    ensures
        forall|k: Keyword| mark(#[trigger] k.text()) == keyword_mark(k) && is_token(k.text()),
{
    reveal_strlit("ip4");
    reveal_strlit("ip6");
    reveal_strlit("dns");
    reveal_strlit("dns4");
    reveal_strlit("dns6");
    reveal_strlit("mac");
    reveal_strlit("tcp");
    reveal_strlit("udp");
    reveal_strlit("tls");
    reveal_strlit("quic");
    reveal_strlit("http");
    reveal_strlit("https");
    reveal_strlit("ws");
    reveal_strlit("wss");
    reveal_strlit("wtr");
    reveal_strlit("webrtc");
    reveal_strlit("onion");
    reveal_strlit("custom");
    reveal_strlit("node");
    reveal_strlit("peer");
    reveal_strlit("uuid");
    reveal_strlit("identity");
    reveal_strlit("meta");
    assert forall|k: Keyword| mark(#[trigger] k.text()) == keyword_mark(k) && is_token(
        k.text(),
    ) by {
        match k {
            Keyword::Ip4 => {
                assert(mark("ip4"@) == (3nat, 'i', '4'));
            },
            Keyword::Ip6 => {
                assert(mark("ip6"@) == (3nat, 'i', '6'));
            },
            Keyword::Dns => {
                assert(mark("dns"@) == (3nat, 'd', 's'));
            },
            Keyword::Dns4 => {
                assert(mark("dns4"@) == (4nat, 'd', '4'));
            },
            Keyword::Dns6 => {
                assert(mark("dns6"@) == (4nat, 'd', '6'));
            },
            Keyword::Mac => {
                assert(mark("mac"@) == (3nat, 'm', 'c'));
            },
            Keyword::Tcp => {
                assert(mark("tcp"@) == (3nat, 't', 'p'));
            },
            Keyword::Udp => {
                assert(mark("udp"@) == (3nat, 'u', 'p'));
            },
            Keyword::Tls => {
                assert(mark("tls"@) == (3nat, 't', 's'));
            },
            Keyword::Quic => {
                assert(mark("quic"@) == (4nat, 'q', 'c'));
            },
            Keyword::Http => {
                assert(mark("http"@) == (4nat, 'h', 'p'));
            },
            Keyword::Https => {
                assert(mark("https"@) == (5nat, 'h', 's'));
            },
            Keyword::Ws => {
                assert(mark("ws"@) == (2nat, 'w', 's'));
            },
            Keyword::Wss => {
                assert(mark("wss"@) == (3nat, 'w', 's'));
            },
            Keyword::Wtr => {
                assert(mark("wtr"@) == (3nat, 'w', 'r'));
            },
            Keyword::Webrtc => {
                assert(mark("webrtc"@) == (6nat, 'w', 'c'));
            },
            Keyword::Onion => {
                assert(mark("onion"@) == (5nat, 'o', 'n'));
            },
            Keyword::Custom => {
                assert(mark("custom"@) == (6nat, 'c', 'm'));
            },
            Keyword::Node => {
                assert(mark("node"@) == (4nat, 'n', 'e'));
            },
            Keyword::Peer => {
                assert(mark("peer"@) == (4nat, 'p', 'r'));
            },
            Keyword::Uuid => {
                assert(mark("uuid"@) == (4nat, 'u', 'd'));
            },
            Keyword::Identity => {
                assert(mark("identity"@) == (8nat, 'i', 'y'));
            },
            Keyword::Meta => {
                assert(mark("meta"@) == (4nat, 'm', 'a'));
            },
        }
    }
}

/// The text of a keyword is one token and reads as the keyword.
pub proof fn lemma_keyword_text(k: Keyword)
    ensures
        keyword(k.text()) == Some(k),
        is_token(k.text()),
{
    lemma_keyword_marks();
    let t = k.text();
    assert(mark(t) == keyword_mark(k));
    // the marks of all keywords, by which `keyword` tells `t` from the others
    assert(mark(Keyword::Ip4.text()) == keyword_mark(Keyword::Ip4));
    assert(mark(Keyword::Ip6.text()) == keyword_mark(Keyword::Ip6));
    assert(mark(Keyword::Dns.text()) == keyword_mark(Keyword::Dns));
    assert(mark(Keyword::Dns4.text()) == keyword_mark(Keyword::Dns4));
    assert(mark(Keyword::Dns6.text()) == keyword_mark(Keyword::Dns6));
    assert(mark(Keyword::Mac.text()) == keyword_mark(Keyword::Mac));
    assert(mark(Keyword::Tcp.text()) == keyword_mark(Keyword::Tcp));
    assert(mark(Keyword::Udp.text()) == keyword_mark(Keyword::Udp));
    assert(mark(Keyword::Tls.text()) == keyword_mark(Keyword::Tls));
    assert(mark(Keyword::Quic.text()) == keyword_mark(Keyword::Quic));
    assert(mark(Keyword::Http.text()) == keyword_mark(Keyword::Http));
    assert(mark(Keyword::Https.text()) == keyword_mark(Keyword::Https));
    assert(mark(Keyword::Ws.text()) == keyword_mark(Keyword::Ws));
    assert(mark(Keyword::Wss.text()) == keyword_mark(Keyword::Wss));
    assert(mark(Keyword::Wtr.text()) == keyword_mark(Keyword::Wtr));
    assert(mark(Keyword::Webrtc.text()) == keyword_mark(Keyword::Webrtc));
    assert(mark(Keyword::Onion.text()) == keyword_mark(Keyword::Onion));
    assert(mark(Keyword::Custom.text()) == keyword_mark(Keyword::Custom));
    assert(mark(Keyword::Node.text()) == keyword_mark(Keyword::Node));
    assert(mark(Keyword::Peer.text()) == keyword_mark(Keyword::Peer));
    assert(mark(Keyword::Uuid.text()) == keyword_mark(Keyword::Uuid));
    assert(mark(Keyword::Identity.text()) == keyword_mark(Keyword::Identity));
    assert(mark(Keyword::Meta.text()) == keyword_mark(Keyword::Meta));
}

/// The decimal text of a port is one token and reads as the port.
pub proof fn lemma_port_text(p: u16)
    ensures
        port_of_text(dec_text(p as nat)) == Some(p),
        is_token(dec_text(p as nat)),
{
    let t = dec_text(p as nat);
    lemma_dec_text(p as nat);
    lemma_dec_is_hex(t);
    lemma_digits_free(t);
    assert(dec_digit(t[0]) is Some);
}

/// Whether the tokens of a segment that is no path read back as the
/// segment: the first is its keyword, the keyword takes the others, each is
/// a token, and the keyword writes the segment with them.
pub open spec fn reads_back(seg: SegmentView) -> bool {
    let k = head_keyword(seg).unwrap();
    let t = seg.tokens();
    &&& head_keyword(seg) is Some
    &&& t.len() == 1 + k.arity()
    &&& t[0] == k.text()
    &&& all_are_tokens(t)
    &&& k.segment(token_or_none(t, 1, k.arity() >= 1), token_or_none(t, 2, k.arity() >= 2))
        == Ok::<SegmentView, ErrorView>(seg)
}

/// A keyword alone is a sequence of tokens.
proof fn lemma_one_token(a: Seq<char>)
    requires
        is_token(a),
    ensures
        all_are_tokens(seq![a]),
{
}

/// Two tokens are a sequence of tokens.
proof fn lemma_two_tokens(a: Seq<char>, b: Seq<char>)
    requires
        is_token(a),
        is_token(b),
    ensures
        all_are_tokens(seq![a, b]),
{
}

/// Three tokens are a sequence of tokens.
proof fn lemma_three_tokens(a: Seq<char>, b: Seq<char>, c: Seq<char>)
    requires
        is_token(a),
        is_token(b),
        is_token(c),
    ensures
        all_are_tokens(seq![a, b, c]),
{
}

/// A hardware-address segment reads back.
proof fn lemma_reads_mac(m: MacAddr)
    ensures
        reads_back(SegmentView::Protocol(ProtocolView::Mac(m))),
{
    lemma_keyword_text(Keyword::Mac);
    m.lemma_text_round_trip();
    lemma_two_tokens(Keyword::Mac.text(), m.text());
}

/// An IPv4 segment reads back.
proof fn lemma_reads_ip4(a: Ipv4Addr)
    ensures
        reads_back(SegmentView::Protocol(ProtocolView::Ip4(a))),
{
    lemma_keyword_text(Keyword::Ip4);
    a.lemma_text_round_trip();
    lemma_two_tokens(Keyword::Ip4.text(), a.text());
}

/// An IPv6 segment reads back.
proof fn lemma_reads_ip6(a: Ipv6Addr)
    ensures
        reads_back(SegmentView::Protocol(ProtocolView::Ip6(a))),
{
    lemma_keyword_text(Keyword::Ip6);
    a.lemma_text_round_trip();
    lemma_two_tokens(Keyword::Ip6.text(), a.text());
}

/// A segment that carries a port reads back.
proof fn lemma_reads_port(p: ProtocolView)
    requires
        p is Tcp || p is Udp || p is Ws || p is Wss || p is WebTransport,
    ensures
        reads_back(SegmentView::Protocol(p)),
{
    let seg = SegmentView::Protocol(p);
    let k = head_keyword(seg).unwrap();
    lemma_keyword_text(k);
    match p {
        ProtocolView::Tcp(n) => {
            lemma_port_text(n);
            lemma_two_tokens(k.text(), dec_text(n as nat));
        },
        ProtocolView::Udp(n) => {
            lemma_port_text(n);
            lemma_two_tokens(k.text(), dec_text(n as nat));
        },
        ProtocolView::Ws(n) => {
            lemma_port_text(n);
            lemma_two_tokens(k.text(), dec_text(n as nat));
        },
        ProtocolView::Wss(n) => {
            lemma_port_text(n);
            lemma_two_tokens(k.text(), dec_text(n as nat));
        },
        ProtocolView::WebTransport(n) => {
            lemma_port_text(n);
            lemma_two_tokens(k.text(), dec_text(n as nat));
        },
        _ => {},
    }
}

/// A segment that carries a name reads back, where the name is a token.
proof fn lemma_reads_name(p: ProtocolView, n: Seq<char>)
    requires
        is_token(n),
        p == ProtocolView::Dns(n) || p == ProtocolView::Dns4(n) || p == ProtocolView::Dns6(n) || p
            == ProtocolView::Onion(n) || p == ProtocolView::Custom(n),
    ensures
        reads_back(SegmentView::Protocol(p)),
{
    let seg = SegmentView::Protocol(p);
    let k = head_keyword(seg).unwrap();
    lemma_keyword_text(k);
    lemma_two_tokens(k.text(), n);
}

/// A marker reads back.
proof fn lemma_reads_marker(p: ProtocolView)
    requires
        p is Tls || p is Quic || p is Http || p is Https || p is WebRTC,
    ensures
        reads_back(SegmentView::Protocol(p)),
{
    let seg = SegmentView::Protocol(p);
    let k = head_keyword(seg).unwrap();
    lemma_keyword_text(k);
    lemma_one_token(k.text());
}

/// An identity segment reads back, where its texts are tokens and its
/// base32 text is known to decode to its bytes.
proof fn lemma_reads_identity(i: IdentityView)
    requires
        grammatical(SegmentView::Identity(i)),
        i.faithful(),
    ensures
        reads_back(SegmentView::Identity(i)),
{
    let seg = SegmentView::Identity(i);
    let k = head_keyword(seg).unwrap();
    lemma_keyword_text(k);
    match i {
        IdentityView::NodeId(b) => {
            lemma_base32_token(b);
            lemma_two_tokens(k.text(), base32_text(b));
        },
        IdentityView::PeerId(b) => {
            lemma_base32_token(b);
            lemma_two_tokens(k.text(), base32_text(b));
        },
        IdentityView::Uuid(b) => {
            lemma_hex_pairs(b);
            lemma_digits_free(hex_pairs(b));
            lemma_two_tokens(k.text(), hex_pairs(b));
            assert(uuid_of_text(hex_pairs(b)) == Some(b));
        },
        IdentityView::Custom { kind, id } => {
            lemma_base32_token(id);
            lemma_three_tokens(k.text(), kind, base32_text(id));
        },
    }
}

/// A metadata segment reads back, where key and value are tokens.
proof fn lemma_reads_meta(key: Seq<char>, value: Seq<char>)
    requires
        is_token(key),
        is_token(value),
    ensures
        reads_back(SegmentView::Metadata(key, value)),
{
    lemma_keyword_text(Keyword::Meta);
    lemma_three_tokens(Keyword::Meta.text(), key, value);
}

/// The tokens of a segment that can be read back and is no path read back
/// as the segment.
pub proof fn lemma_segment_reads(seg: SegmentView)
    requires
        grammatical(seg),
        seg.faithful(),
        !(seg is Path),
    ensures
        reads_back(seg),
{
    match seg {
        SegmentView::Protocol(p) => {
            match p {
                ProtocolView::Mac(m) => lemma_reads_mac(m),
                ProtocolView::Ip4(a) => lemma_reads_ip4(a),
                ProtocolView::Ip6(a) => lemma_reads_ip6(a),
                ProtocolView::Dns(n) => lemma_reads_name(p, n),
                ProtocolView::Dns4(n) => lemma_reads_name(p, n),
                ProtocolView::Dns6(n) => lemma_reads_name(p, n),
                ProtocolView::Onion(n) => lemma_reads_name(p, n),
                ProtocolView::Custom(n) => lemma_reads_name(p, n),
                ProtocolView::Tcp(_) => lemma_reads_port(p),
                ProtocolView::Udp(_) => lemma_reads_port(p),
                ProtocolView::Ws(_) => lemma_reads_port(p),
                ProtocolView::Wss(_) => lemma_reads_port(p),
                ProtocolView::WebTransport(_) => lemma_reads_port(p),
                _ => lemma_reads_marker(p),
            }
        },
        SegmentView::Identity(i) => lemma_reads_identity(i),
        SegmentView::Path(_) => {},
        SegmentView::Metadata(k, v) => lemma_reads_meta(k, v),
    }
}

/// Where the tokens of a segment stand in `t` from index `i` on, the
/// grammar reads the segment there, and takes up exactly those tokens.
pub proof fn lemma_parse_at(t: Seq<Seq<char>>, i: int, seg: SegmentView)
    requires
        grammatical(seg),
        seg.faithful(),
        0 <= i,
        i + seg.tokens().len() <= t.len(),
        forall|j: int| 0 <= j < seg.tokens().len() ==> t[i + j] == seg.tokens()[j],
    ensures
        seg.tokens().len() >= 1,
        parse_at(t, i) == Ok::<(SegmentView, nat), ErrorView>(
            (seg, seg.tokens().len()),
        ),
{
    match seg {
        SegmentView::Path(p) => {
            assert(t[i + 0] == seg.tokens()[0]);
        },
        _ => {
            lemma_segment_reads(seg);
            assert(reads_back(seg));
            let k = head_keyword(seg).unwrap();
            lemma_keyword_text(k);
            assert(t[i + 0] == seg.tokens()[0]);
            if k.arity() >= 1 {
                assert(t[i + 1] == seg.tokens()[1]);
            }
            if k.arity() >= 2 {
                assert(t[i + 2] == seg.tokens()[2]);
            }
        },
    }
}

/// The text of two runs of tokens is the text of the first and then that
/// of the second.
pub proof fn lemma_slashed_add(x: Seq<Seq<char>>, y: Seq<Seq<char>>)
    ensures
        slashed(x + y) == slashed(x) + slashed(y),
    decreases x.len(),
{
    if x.len() == 0 {
        assert(x + y =~= y);
        assert(slashed(x) + slashed(y) =~= slashed(y));
    } else {
        lemma_slashed_add(x.skip(1), y);
        assert((x + y).skip(1) =~= x.skip(1) + y);
        assert((x + y)[0] == x[0]);
        assert(slashed(x + y) =~= slashed(x) + slashed(y));
    }
}

/// The tokens of an address with one more segment are those of the address
/// and then those of the segment.
pub proof fn lemma_all_tokens_push(a: Seq<SegmentView>, seg: SegmentView)
    ensures
        all_tokens(a.push(seg)) == all_tokens(a) + seg.tokens(),
    decreases a.len(),
{
    let all = a.push(seg);
    if a.len() == 0 {
        assert(all.skip(1) =~= Seq::<SegmentView>::empty());
        assert(all[0] == seg);
        assert(all_tokens(all.skip(1)) =~= Seq::<Seq<char>>::empty());
        assert(all_tokens(a) =~= Seq::<Seq<char>>::empty());
        assert(all_tokens(all) == seg.tokens() + all_tokens(all.skip(1)));
        assert(all_tokens(all) =~= all_tokens(a) + seg.tokens());
    } else {
        lemma_all_tokens_push(a.skip(1), seg);
        assert(all.skip(1) =~= a.skip(1).push(seg));
        assert(all[0] == a[0]);
        assert(all_tokens(all) =~= all_tokens(a) + seg.tokens());
    }
}

/// The canonical text of an address is the text of all its tokens.
pub proof fn lemma_render_slashed(a: Seq<SegmentView>)
    ensures
        render(a) == slashed(all_tokens(a)),
    decreases a.len(),
{
    if a.len() > 0 {
        let front = a.drop_last();
        lemma_render_slashed(front);
        lemma_all_tokens_push(front, a.last());
        assert(front.push(a.last()) =~= a);
        lemma_slashed_add(all_tokens(front), a.last().tokens());
    }
}

/// Splitting the text of a run of tokens at the slashes gives the tokens
/// back.
pub proof fn lemma_tokens_slashed(t: Seq<Seq<char>>)
    requires
        all_are_tokens(t),
    ensures
        tokens(slashed(t)) == t,
    decreases t.len(),
{
    if t.len() > 0 {
        let rest = t.skip(1);
        assert(all_are_tokens(rest)) by {
            assert forall|k: int| 0 <= k < rest.len() implies is_token(#[trigger] rest[k]) by {
                assert(rest[k] == t[k + 1]);
            }
        }
        lemma_tokens_slashed(rest);
        let s = slashed(t);
        let body = t[0] + slashed(rest);
        assert(is_token(t[0]));
        assert(s.len() > 0 && s[0] == '/');
        assert(find(s, '/') == 0);
        assert(s.skip(1) =~= body);
        let n = t[0].len() as int;
        assert forall|j: int| 0 <= j < n implies body[j] != '/' by {
            assert(body[j] == t[0][j]);
        }
        if rest.len() > 0 {
            assert(slashed(rest)[0] == '/');
            assert(body[n] == '/');
        }
        lemma_find_is(body, '/', n);
        assert(body.take(n) =~= t[0]);
        assert(body.skip(n) =~= slashed(rest));
        assert(tokens(body) == seq![t[0]] + tokens(slashed(rest)));
        assert(tokens(s) =~= t);
    }
}

/// Every token of a canonical address is a token.
pub proof fn lemma_all_tokens_are_tokens(a: Seq<SegmentView>)
    requires
        canonical(a),
    ensures
        all_are_tokens(all_tokens(a)),
    decreases a.len(),
{
    if a.len() > 0 {
        let rest = a.skip(1);
        assert(canonical(rest)) by {
            assert forall|i: int| 0 <= i < rest.len() implies grammatical(#[trigger] rest[i])
                && rest[i].faithful() by {
                assert(rest[i] == a[i + 1]);
            }
        }
        lemma_all_tokens_are_tokens(rest);
        let head = a[0].tokens();
        assert(grammatical(a[0]) && a[0].faithful());
        if !(a[0] is Path) {
            lemma_segment_reads(a[0]);
        }
        assert(all_are_tokens(head));
        let all = all_tokens(a);
        assert forall|k: int| 0 <= k < all.len() implies is_token(#[trigger] all[k]) by {
            if k < head.len() {
                assert(all[k] == head[k]);
            } else {
                assert(all[k] == all_tokens(rest)[k - head.len()]);
            }
        }
    }
}

/// Behind any tokens `pre`, the tokens of a canonical address read as the
/// address.
pub proof fn lemma_parse_all(pre: Seq<Seq<char>>, a: Seq<SegmentView>)
    requires
        canonical(a),
    ensures
        parse_from(pre + all_tokens(a), pre.len() as int) == Ok::<
            Seq<SegmentView>,
            ErrorView,
        >(a),
    decreases a.len(),
{
    let t = pre + all_tokens(a);
    let i = pre.len() as int;
    if a.len() == 0 {
        assert(t =~= pre);
        assert(a =~= Seq::<SegmentView>::empty());
    } else {
        let seg = a[0];
        let rest = a.skip(1);
        let head = seg.tokens();
        assert(grammatical(seg) && seg.faithful());
        assert(canonical(rest)) by {
            assert forall|j: int| 0 <= j < rest.len() implies grammatical(#[trigger] rest[j])
                && rest[j].faithful() by {
                assert(rest[j] == a[j + 1]);
            }
        }
        assert forall|j: int| 0 <= j < head.len() implies t[i + j] == head[j] by {}
        lemma_parse_at(t, i, seg);
        lemma_parse_all(pre + head, rest);
        assert(pre + head + all_tokens(rest) =~= t);
        assert(seq![seg] + rest =~= a);
    }
}

/// Parsing the canonical text of an address gives the address back. This
/// holds of every address whose segments can be read back from their text
/// (`grammatical`) and whose base32 texts are known to decode to their bytes
/// (`faithful`, which `to_string` establishes).
pub proof fn lemma_parse_render(a: Seq<SegmentView>)
    requires
        canonical(a),
    ensures
        parse(render(a)) == Ok::<Seq<SegmentView>, ErrorView>(a),
{
    lemma_render_slashed(a);
    lemma_all_tokens_are_tokens(a);
    lemma_tokens_slashed(all_tokens(a));
    lemma_parse_all(Seq::empty(), a);
    assert(Seq::<Seq<char>>::empty() + all_tokens(a) =~= all_tokens(a));
}

/// Rendering what a canonical text parses to gives the text back: where
/// `s` is the canonical text of an address, parsing `s` succeeds and the
/// text of the result is `s`.
pub proof fn lemma_render_parse(s: Seq<char>, a: Seq<SegmentView>)
    requires
        canonical(a),
        s == render(a),
    ensures
        parse(s) is Ok,
        render(parse(s)->Ok_0) == s,
{
    lemma_parse_render(a);
}

/// Whether the identifier of a segment, where it has one that is written in
/// base32, has at least one byte.
pub open spec fn has_bytes(seg: SegmentView) -> bool {
    match seg {
        SegmentView::Identity(IdentityView::NodeId(b)) => b.len() > 0,
        SegmentView::Identity(IdentityView::PeerId(b)) => b.len() > 0,
        SegmentView::Identity(IdentityView::Custom { kind, id }) => id.len() > 0,
        _ => true,
    }
}

/// A segment that the grammar reads from tokens can be read back from its
/// text, unless it is an identifier without bytes.
proof fn lemma_parse_at_grammatical(t: Seq<Seq<char>>, i: int)
    requires
        0 <= i < t.len(),
        all_are_tokens(t),
    ensures
        parse_at(t, i) matches Ok(r) ==> r.1 >= 1 && (has_bytes(r.0) ==> grammatical(r.0)),
{
    assert(is_token(t[i]));
    match keyword(t[i]) {
        None => {},
        Some(k) => {
            if k.arity() >= 1 && i + 1 < t.len() {
                assert(is_token(t[i + 1]));
                lemma_uuid_of_text_len(t[i + 1]);
            }
            if k.arity() >= 2 && i + 2 < t.len() {
                assert(is_token(t[i + 2]));
            }
        },
    }
}

/// The segments that the grammar reads from tokens can be read back from
/// their text, but for identifiers without bytes.
proof fn lemma_parse_from_grammatical(t: Seq<Seq<char>>, i: int)
    requires
        0 <= i,
        all_are_tokens(t),
    ensures
        parse_from(t, i) matches Ok(a) ==> forall|j: int|
            0 <= j < a.len() && has_bytes(#[trigger] a[j]) ==> grammatical(a[j]),
    decreases t.len() - i,
{
    if i < t.len() {
        lemma_parse_at_grammatical(t, i);
        match parse_at(t, i) {
            Err(_) => {},
            Ok((seg, n)) => {
                lemma_parse_from_grammatical(t, i + n);
                match parse_from(t, i + n) {
                    Err(_) => {},
                    Ok(rest) => {
                        let a = seq![seg] + rest;
                        assert forall|j: int| 0 <= j < a.len() && has_bytes(
                            #[trigger] a[j],
                        ) implies grammatical(a[j]) by {
                            if j > 0 {
                                assert(a[j] == rest[j - 1]);
                            }
                        }
                    },
                }
            },
        }
    }
}

/// Every segment that parsing gives can be read back from its text, unless
/// it is an identifier without bytes, which a token such as `A` decodes to.
pub proof fn lemma_parsed_is_grammatical(s: Seq<char>)
    ensures
        parse(s) matches Ok(a) ==> forall|j: int|
            0 <= j < a.len() && has_bytes(#[trigger] a[j]) ==> grammatical(a[j]),
{
    lemma_tokens_are_tokens(s);
    lemma_parse_from_grammatical(tokens(s), 0);
}

/// An address that was parsed from any text, canonical or not, parses from
/// its own canonical text to itself. This holds where no identifier of the
/// address is without bytes and every base32 text in it is known to decode
/// to its bytes.
pub proof fn lemma_reparse(s: Seq<char>, a: Seq<SegmentView>)
    requires
        parse(s) == Ok::<Seq<SegmentView>, ErrorView>(a),
        forall|j: int| 0 <= j < a.len() ==> has_bytes(#[trigger] a[j]) && a[j].faithful(),
    ensures
        parse(render(a)) == Ok::<Seq<SegmentView>, ErrorView>(a),
        render(parse(render(a))->Ok_0) == render(a),
{
    lemma_parsed_is_grammatical(s);
    let b = parse(s)->Ok_0;
    assert(b == a);
    assert(canonical(a)) by {
        assert forall|i: int| 0 <= i < a.len() implies grammatical(#[trigger] a[i])
            && a[i].faithful() by {
            assert(has_bytes(a[i]) && a[i].faithful());
            assert(has_bytes(b[i]) ==> grammatical(b[i]));
        }
    }
    lemma_parse_render(a);
}

/// Parsing never gives the error of an unknown protocol: a token that is no
/// keyword is a path.
pub proof fn lemma_no_unknown_protocol(s: Seq<char>)
    ensures
        !(parse(s) matches Err(ErrorView::UnknownProtocol(_))),
{
    lemma_parse_from_known(tokens(s), 0);
}

/// Reading tokens never gives the error of an unknown protocol.
proof fn lemma_parse_from_known(t: Seq<Seq<char>>, i: int)
    requires
        0 <= i,
    ensures
        !(parse_from(t, i) matches Err(ErrorView::UnknownProtocol(_))),
    decreases t.len() - i,
{
    if i < t.len() {
        match parse_at(t, i) {
            Err(e) => {
                assert(!(e is UnknownProtocol));
            },
            Ok((seg, n)) => {
                lemma_parse_from_known(t, i + n);
            },
        }
    }
}

} // verus!
