//! The grammar of the textual form: which tokens a keyword takes and which
//! segment they write.

use crate::codec::base32_bytes;
use crate::error::{ErrorView, StackAddrError};
use crate::ip::{Ipv4Addr, Ipv6Addr};
use crate::mac::MacAddr;
use crate::numeral::{bounded_dec, read_dec};
use crate::segment::identity::{Identity, IdentityView};
use crate::segment::protocol::{Protocol, ProtocolView};
use crate::segment::{views, Segment, SegmentView};
use crate::text::{chars_of, span_is, token_spans, tokens, Span};
use crate::uid::{uuid_of_text, Uuid};
use vstd::prelude::*;
use vstd::string::*;

verus! {

/// The words that the grammar knows.
#[derive(Clone, Copy, Debug, PartialEq, Eq, Structural)]
pub enum Keyword {
    Ip4,
    Ip6,
    Dns,
    Dns4,
    Dns6,
    Mac,
    Tcp,
    Udp,
    Tls,
    Quic,
    Http,
    Https,
    Ws,
    Wss,
    Wtr,
    Webrtc,
    Onion,
    Custom,
    Node,
    Peer,
    Uuid,
    Identity,
    Meta,
}

/// The keyword that the token `t` is, if it is one.
pub open spec fn keyword(t: Seq<char>) -> Option<Keyword> {
    if t == "ip4"@ {
        Some(Keyword::Ip4)
    } else if t == "ip6"@ {
        Some(Keyword::Ip6)
    } else if t == "dns"@ {
        Some(Keyword::Dns)
    } else if t == "dns4"@ {
        Some(Keyword::Dns4)
    } else if t == "dns6"@ {
        Some(Keyword::Dns6)
    } else if t == "mac"@ {
        Some(Keyword::Mac)
    } else if t == "tcp"@ {
        Some(Keyword::Tcp)
    } else if t == "udp"@ {
        Some(Keyword::Udp)
    } else if t == "tls"@ {
        Some(Keyword::Tls)
    } else if t == "quic"@ {
        Some(Keyword::Quic)
    } else if t == "http"@ {
        Some(Keyword::Http)
    } else if t == "https"@ {
        Some(Keyword::Https)
    } else if t == "ws"@ {
        Some(Keyword::Ws)
    } else if t == "wss"@ {
        Some(Keyword::Wss)
    } else if t == "wtr"@ {
        Some(Keyword::Wtr)
    } else if t == "webrtc"@ {
        Some(Keyword::Webrtc)
    } else if t == "onion"@ {
        Some(Keyword::Onion)
    } else if t == "custom"@ {
        Some(Keyword::Custom)
    } else if t == "node"@ {
        Some(Keyword::Node)
    } else if t == "peer"@ {
        Some(Keyword::Peer)
    } else if t == "uuid"@ {
        Some(Keyword::Uuid)
    } else if t == "identity"@ {
        Some(Keyword::Identity)
    } else if t == "meta"@ {
        Some(Keyword::Meta)
    } else {
        None
    }
}

/// The port that the token `t` writes: decimal digits, with an optional `+`
/// before them, worth at most 65535.
pub open spec fn port_of_text(t: Seq<char>) -> Option<u16> {
    let digits = if t.len() > 0 && t[0] == '+' {
        t.skip(1)
    } else {
        t
    };
    match bounded_dec(digits, 65535) {
        Some(v) => Some(v as u16),
        None => None,
    }
}

impl Keyword {
    /// The text of the keyword.
    pub open spec fn text(self) -> Seq<char> {
        match self {
            Keyword::Ip4 => "ip4"@,
            Keyword::Ip6 => "ip6"@,
            Keyword::Dns => "dns"@,
            Keyword::Dns4 => "dns4"@,
            Keyword::Dns6 => "dns6"@,
            Keyword::Mac => "mac"@,
            Keyword::Tcp => "tcp"@,
            Keyword::Udp => "udp"@,
            Keyword::Tls => "tls"@,
            Keyword::Quic => "quic"@,
            Keyword::Http => "http"@,
            Keyword::Https => "https"@,
            Keyword::Ws => "ws"@,
            Keyword::Wss => "wss"@,
            Keyword::Wtr => "wtr"@,
            Keyword::Webrtc => "webrtc"@,
            Keyword::Onion => "onion"@,
            Keyword::Custom => "custom"@,
            Keyword::Node => "node"@,
            Keyword::Peer => "peer"@,
            Keyword::Uuid => "uuid"@,
            Keyword::Identity => "identity"@,
            Keyword::Meta => "meta"@,
        }
    }

    /// How many tokens the keyword takes after itself.
    pub open spec fn arity(self) -> nat {
        match self {
            Keyword::Tls | Keyword::Quic | Keyword::Http | Keyword::Https | Keyword::Webrtc => 0,
            Keyword::Identity | Keyword::Meta => 2,
            _ => 1,
        }
    }

    /// The name of what is missing where the keyword stands without its
    /// token number `j`, counted from zero.
    pub open spec fn missing(self, j: nat) -> Seq<char> {
        match self {
            Keyword::Ip4 => "ip4 address"@,
            Keyword::Ip6 => "ip6 address"@,
            Keyword::Dns => "dns"@,
            Keyword::Dns4 => "dns4"@,
            Keyword::Dns6 => "dns6"@,
            Keyword::Mac => "mac address"@,
            Keyword::Tcp => "tcp port"@,
            Keyword::Udp => "udp port"@,
            Keyword::Ws => "ws port"@,
            Keyword::Wss => "wss port"@,
            Keyword::Wtr => "wtr port"@,
            Keyword::Onion => "onion address"@,
            Keyword::Custom => "custom name"@,
            Keyword::Node => "node id"@,
            Keyword::Peer => "peer id"@,
            Keyword::Uuid => "uuid value"@,
            Keyword::Identity => if j == 0 {
                "identity kind"@
            } else {
                "identity value"@
            },
            Keyword::Meta => if j == 0 {
                "metadata key"@
            } else {
                "metadata value"@
            },
            _ => Seq::empty(),
        }
    }

    /// The segment that the keyword writes with the tokens `a` and `b`
    /// after it, or the error of a token that it cannot read. A keyword that
    /// takes fewer than two tokens does not look at `b`, one that takes none
    /// not at `a` either.
    pub open spec fn segment(self, a: Seq<char>, b: Seq<char>) -> Result<SegmentView, ErrorView> {
        match self {
            Keyword::Ip4 => match Ipv4Addr::from_text(a) {
                Some(x) => Ok(SegmentView::Protocol(ProtocolView::Ip4(x))),
                None => Err(ErrorView::InvalidAddress),
            },
            Keyword::Ip6 => match Ipv6Addr::from_text(a) {
                Some(x) => Ok(SegmentView::Protocol(ProtocolView::Ip6(x))),
                None => Err(ErrorView::InvalidAddress),
            },
            Keyword::Dns => Ok(SegmentView::Protocol(ProtocolView::Dns(a))),
            Keyword::Dns4 => Ok(SegmentView::Protocol(ProtocolView::Dns4(a))),
            Keyword::Dns6 => Ok(SegmentView::Protocol(ProtocolView::Dns6(a))),
            Keyword::Mac => match MacAddr::from_text(a) {
                Some(m) => Ok(SegmentView::Protocol(ProtocolView::Mac(m))),
                None => Err(ErrorView::InvalidEncoding("mac"@)),
            },
            Keyword::Tcp => match port_of_text(a) {
                Some(p) => Ok(SegmentView::Protocol(ProtocolView::Tcp(p))),
                None => Err(ErrorView::InvalidPort),
            },
            Keyword::Udp => match port_of_text(a) {
                Some(p) => Ok(SegmentView::Protocol(ProtocolView::Udp(p))),
                None => Err(ErrorView::InvalidPort),
            },
            Keyword::Tls => Ok(SegmentView::Protocol(ProtocolView::Tls)),
            Keyword::Quic => Ok(SegmentView::Protocol(ProtocolView::Quic)),
            Keyword::Http => Ok(SegmentView::Protocol(ProtocolView::Http)),
            Keyword::Https => Ok(SegmentView::Protocol(ProtocolView::Https)),
            Keyword::Ws => match port_of_text(a) {
                Some(p) => Ok(SegmentView::Protocol(ProtocolView::Ws(p))),
                None => Err(ErrorView::InvalidPort),
            },
            Keyword::Wss => match port_of_text(a) {
                Some(p) => Ok(SegmentView::Protocol(ProtocolView::Wss(p))),
                None => Err(ErrorView::InvalidPort),
            },
            Keyword::Wtr => match port_of_text(a) {
                Some(p) => Ok(SegmentView::Protocol(ProtocolView::WebTransport(p))),
                None => Err(ErrorView::InvalidPort),
            },
            Keyword::Webrtc => Ok(SegmentView::Protocol(ProtocolView::WebRTC)),
            Keyword::Onion => Ok(SegmentView::Protocol(ProtocolView::Onion(a))),
            Keyword::Custom => Ok(SegmentView::Protocol(ProtocolView::Custom(a))),
            Keyword::Node => match base32_bytes(a) {
                Some(x) => Ok(SegmentView::Identity(IdentityView::NodeId(x))),
                None => Err(ErrorView::InvalidEncoding("base32 node id"@)),
            },
            Keyword::Peer => match base32_bytes(a) {
                Some(x) => Ok(SegmentView::Identity(IdentityView::PeerId(x))),
                None => Err(ErrorView::InvalidEncoding("base32 peer id"@)),
            },
            Keyword::Uuid => match uuid_of_text(a) {
                Some(x) => Ok(SegmentView::Identity(IdentityView::Uuid(x))),
                None => Err(ErrorView::InvalidEncoding("uuid"@)),
            },
            Keyword::Identity => match base32_bytes(b) {
                Some(x) => Ok(SegmentView::Identity(IdentityView::Custom { kind: a, id: x })),
                None => Err(ErrorView::InvalidEncoding("base32 identity"@)),
            },
            Keyword::Meta => Ok(SegmentView::Metadata(a, b)),
        }
    }
}

/// The token of `t` at index `i` if `wanted`, and no token otherwise.
pub open spec fn token_or_none(t: Seq<Seq<char>>, i: int, wanted: bool) -> Seq<char> {
    if wanted {
        t[i]
    } else {
        Seq::empty()
    }
}

/// The segment that starts at token `i` of `t`, with the number of tokens
/// that it takes up. A token that is no keyword is a path component by
/// itself. A keyword takes the tokens that follow it, as many as its arity
/// says; where `t` ends before them the first missing one is the error.
pub open spec fn parse_at(t: Seq<Seq<char>>, i: int) -> Result<(SegmentView, nat), ErrorView> {
    match keyword(t[i]) {
        None => Ok((SegmentView::Path(t[i]), 1nat)),
        Some(k) => {
            let n = k.arity();
            if n >= 1 && i + 1 >= t.len() {
                Err(ErrorView::MissingPart(k.missing(0)))
            } else if n >= 2 && i + 2 >= t.len() {
                Err(ErrorView::MissingPart(k.missing(1)))
            } else {
                match k.segment(token_or_none(t, i + 1, n >= 1), token_or_none(t, i + 2, n >= 2)) {
                    Ok(seg) => Ok((seg, 1 + n)),
                    Err(e) => Err(e),
                }
            }
        },
    }
}

/// The segments that the tokens of `t` from index `i` on write, or the
/// first error met on the way from left to right.
pub open spec fn parse_from(t: Seq<Seq<char>>, i: int) -> Result<Seq<SegmentView>, ErrorView>
    decreases t.len() - i,
{
    if i < 0 || i >= t.len() {
        Ok(Seq::empty())
    } else {
        match parse_at(t, i) {
            Err(e) => Err(e),
            Ok((seg, n)) => match parse_from(t, i + n) {
                Err(e) => Err(e),
                Ok(rest) => Ok(seq![seg] + rest),
            },
        }
    }
}

/// The segments that the text `s` writes, or the error that stops its
/// reading.
pub open spec fn parse(s: Seq<char>) -> Result<Seq<SegmentView>, ErrorView> {
    parse_from(tokens(s), 0)
}

/// `r` with the segments `done` before its own.
pub open spec fn after(done: Seq<SegmentView>, r: Result<Seq<SegmentView>, ErrorView>) -> Result<
    Seq<SegmentView>,
    ErrorView,
> {
    match r {
        Ok(rest) => Ok(done + rest),
        Err(e) => Err(e),
    }
}

/// The keyword that the span `sp` of `chars` reads, if it reads one.
pub(crate) fn keyword_at(chars: &Vec<char>, sp: Span) -> (r: Option<Keyword>)
    requires
        sp.within(chars@),
    ensures
        r == keyword(sp.of(chars@)),
{
    if span_is(chars, sp, "ip4") {
        Some(Keyword::Ip4)
    } else if span_is(chars, sp, "ip6") {
        Some(Keyword::Ip6)
    } else if span_is(chars, sp, "dns") {
        Some(Keyword::Dns)
    } else if span_is(chars, sp, "dns4") {
        Some(Keyword::Dns4)
    } else if span_is(chars, sp, "dns6") {
        Some(Keyword::Dns6)
    } else if span_is(chars, sp, "mac") {
        Some(Keyword::Mac)
    } else if span_is(chars, sp, "tcp") {
        Some(Keyword::Tcp)
    } else if span_is(chars, sp, "udp") {
        Some(Keyword::Udp)
    } else if span_is(chars, sp, "tls") {
        Some(Keyword::Tls)
    } else if span_is(chars, sp, "quic") {
        Some(Keyword::Quic)
    } else if span_is(chars, sp, "http") {
        Some(Keyword::Http)
    } else if span_is(chars, sp, "https") {
        Some(Keyword::Https)
    } else if span_is(chars, sp, "ws") {
        Some(Keyword::Ws)
    } else if span_is(chars, sp, "wss") {
        Some(Keyword::Wss)
    } else if span_is(chars, sp, "wtr") {
        Some(Keyword::Wtr)
    } else if span_is(chars, sp, "webrtc") {
        Some(Keyword::Webrtc)
    } else if span_is(chars, sp, "onion") {
        Some(Keyword::Onion)
    } else if span_is(chars, sp, "custom") {
        Some(Keyword::Custom)
    } else if span_is(chars, sp, "node") {
        Some(Keyword::Node)
    } else if span_is(chars, sp, "peer") {
        Some(Keyword::Peer)
    } else if span_is(chars, sp, "uuid") {
        Some(Keyword::Uuid)
    } else if span_is(chars, sp, "identity") {
        Some(Keyword::Identity)
    } else if span_is(chars, sp, "meta") {
        Some(Keyword::Meta)
    } else {
        None
    }
}

/// Reads the span `sp` of `chars` as a port.
pub(crate) fn read_port(chars: &Vec<char>, sp: Span) -> (r: Option<u16>)
    requires
        sp.within(chars@),
    ensures
        r == port_of_text(sp.of(chars@)),
{
    let digits = if sp.start < sp.end && chars[sp.start] == '+' {
        Span { start: sp.start + 1, end: sp.end }
    } else {
        sp
    };
    proof {
        if sp.start < sp.end {
            assert(sp.of(chars@)[0] == chars@[sp.start as int]);
        }
        if sp.start < sp.end && chars@[sp.start as int] == '+' {
            assert(digits.of(chars@) =~= sp.of(chars@).skip(1));
        }
    }
    match read_dec(chars, digits, 65535) {
        Some(v) => Some(v as u16),
        None => None,
    }
}

/// The number of tokens that `k` takes after itself.
pub(crate) fn arity_of(k: Keyword) -> (n: usize)
    ensures
        n == k.arity(),
        n <= 2,
{
    match k {
        Keyword::Tls | Keyword::Quic | Keyword::Http | Keyword::Https | Keyword::Webrtc => 0,
        Keyword::Identity | Keyword::Meta => 2,
        _ => 1,
    }
}

/// The name of what is missing where `k` stands without its token number
/// `j`.
pub(crate) fn missing_of(k: Keyword, j: usize) -> (r: &'static str)
    ensures
        r@ == k.missing(j as nat),
{
    match k {
        Keyword::Ip4 => "ip4 address",
        Keyword::Ip6 => "ip6 address",
        Keyword::Dns => "dns",
        Keyword::Dns4 => "dns4",
        Keyword::Dns6 => "dns6",
        Keyword::Mac => "mac address",
        Keyword::Tcp => "tcp port",
        Keyword::Udp => "udp port",
        Keyword::Ws => "ws port",
        Keyword::Wss => "wss port",
        Keyword::Wtr => "wtr port",
        Keyword::Onion => "onion address",
        Keyword::Custom => "custom name",
        Keyword::Node => "node id",
        Keyword::Peer => "peer id",
        Keyword::Uuid => "uuid value",
        Keyword::Identity => if j == 0 {
            "identity kind"
        } else {
            "identity value"
        },
        Keyword::Meta => if j == 0 {
            "metadata key"
        } else {
            "metadata value"
        },
        _ => {
            proof {
                reveal_strlit("");
            }
            assert(""@ =~= Seq::<char>::empty());
            ""
        },
    }
}

/// The port segment that `make` builds from an optional port, or the error
/// of a token that is no port.
fn port_segment(port: Option<u16>, k: Keyword) -> (r: Result<Segment, StackAddrError>)
    requires
        k == Keyword::Tcp || k == Keyword::Udp || k == Keyword::Ws || k == Keyword::Wss || k
            == Keyword::Wtr,
    ensures
        match port {
            Some(p) => r matches Ok(seg) && seg@ == SegmentView::Protocol(
                match k {
                    Keyword::Tcp => ProtocolView::Tcp(p),
                    Keyword::Udp => ProtocolView::Udp(p),
                    Keyword::Ws => ProtocolView::Ws(p),
                    Keyword::Wss => ProtocolView::Wss(p),
                    _ => ProtocolView::WebTransport(p),
                },
            ),
            None => r matches Err(e) && e@ == ErrorView::InvalidPort,
        },
{
    match port {
        Some(p) => Ok(
            Segment::Protocol(
                match k {
                    Keyword::Tcp => Protocol::Tcp(p),
                    Keyword::Udp => Protocol::Udp(p),
                    Keyword::Ws => Protocol::Ws(p),
                    Keyword::Wss => Protocol::Wss(p),
                    _ => Protocol::WebTransport(p),
                },
            ),
        ),
        None => Err(StackAddrError::InvalidPort),
    }
}

/// The identity segment of an identity, or its error.
fn identity_segment(id: Result<Identity, StackAddrError>) -> (r: Result<Segment, StackAddrError>)
    ensures
        match id {
            Ok(i) => r matches Ok(seg) && seg@ == SegmentView::Identity(i@),
            Err(e) => r matches Err(x) && x@ == e@,
        },
{
    match id {
        Ok(i) => Ok(Segment::Identity(i)),
        Err(e) => Err(e),
    }
}

/// Builds the segment that `k` writes with the spans `a` and `b` of the
/// text `s`, whose characters are `chars`.
pub(crate) fn make(k: Keyword, s: &str, chars: &Vec<char>, a: Span, b: Span) -> (r: Result<
    Segment,
    StackAddrError,
>)
    requires
        s@ == chars@,
        a.within(chars@),
        b.within(chars@),
    ensures
        match k.segment(a.of(chars@), b.of(chars@)) {
            Ok(v) => r matches Ok(seg) && seg@ == v,
            Err(e) => r matches Err(x) && x@ == e,
        },
{
    match k {
        Keyword::Ip4 => match Ipv4Addr::read(chars, a) {
            Some(x) => Ok(Segment::Protocol(Protocol::Ip4(x))),
            None => Err(StackAddrError::InvalidAddress),
        },
        Keyword::Ip6 => match Ipv6Addr::read(chars, a) {
            Some(x) => Ok(Segment::Protocol(Protocol::Ip6(x))),
            None => Err(StackAddrError::InvalidAddress),
        },
        Keyword::Dns => Ok(
            Segment::Protocol(Protocol::Dns(s.substring_char(a.start, a.end).to_owned())),
        ),
        Keyword::Dns4 => Ok(
            Segment::Protocol(Protocol::Dns4(s.substring_char(a.start, a.end).to_owned())),
        ),
        Keyword::Dns6 => Ok(
            Segment::Protocol(Protocol::Dns6(s.substring_char(a.start, a.end).to_owned())),
        ),
        Keyword::Mac => match MacAddr::parse(s.substring_char(a.start, a.end)) {
            Some(m) => Ok(Segment::Protocol(Protocol::Mac(m))),
            None => Err(StackAddrError::InvalidEncoding("mac")),
        },
        Keyword::Tcp | Keyword::Udp | Keyword::Ws | Keyword::Wss | Keyword::Wtr => port_segment(
            read_port(chars, a),
            k,
        ),
        Keyword::Tls => Ok(Segment::Protocol(Protocol::Tls)),
        Keyword::Quic => Ok(Segment::Protocol(Protocol::Quic)),
        Keyword::Http => Ok(Segment::Protocol(Protocol::Http)),
        Keyword::Https => Ok(Segment::Protocol(Protocol::Https)),
        Keyword::Webrtc => Ok(Segment::Protocol(Protocol::WebRTC)),
        Keyword::Onion => Ok(
            Segment::Protocol(Protocol::Onion(s.substring_char(a.start, a.end).to_owned())),
        ),
        Keyword::Custom => Ok(
            Segment::Protocol(Protocol::Custom(s.substring_char(a.start, a.end).to_owned())),
        ),
        Keyword::Node => identity_segment(
            Identity::from_base32_node(s.substring_char(a.start, a.end)),
        ),
        Keyword::Peer => identity_segment(
            Identity::from_base32_peer(s.substring_char(a.start, a.end)),
        ),
        Keyword::Uuid => match Uuid::parse_str(s.substring_char(a.start, a.end)) {
            Some(u) => Ok(Segment::Identity(Identity::Uuid(u))),
            None => Err(StackAddrError::InvalidEncoding("uuid")),
        },
        Keyword::Identity => identity_segment(
            Identity::from_base32_custom(
                s.substring_char(a.start, a.end),
                s.substring_char(b.start, b.end),
            ),
        ),
        Keyword::Meta => Ok(
            Segment::Metadata(
                s.substring_char(a.start, a.end).to_owned(),
                s.substring_char(b.start, b.end).to_owned(),
            ),
        ),
    }
}

/// The texts of the spans `spans` in `chars`.
pub open spec fn span_texts(spans: Seq<Span>, chars: Seq<char>) -> Seq<Seq<char>> {
    Seq::new(spans.len(), |k: int| spans[k].of(chars))
}

/// Reads the segment that starts at token `i`, and says how many tokens it
/// takes up.
pub(crate) fn parse_one(s: &str, chars: &Vec<char>, spans: &Vec<Span>, i: usize) -> (r: Result<
    (Segment, usize),
    StackAddrError,
>)
    requires
        s@ == chars@,
        i < spans@.len(),
        forall|k: int| 0 <= k < spans@.len() ==> (#[trigger] spans@[k]).within(chars@),
    ensures
        match parse_at(span_texts(spans@, chars@), i as int) {
            Ok((v, n)) => r matches Ok(got) && got.0@ == v && got.1 == n && 1 <= n && i + n
                <= spans@.len(),
            Err(e) => r matches Err(x) && x@ == e,
        },
{
    let ghost t = span_texts(spans@, chars@);
    let head = spans[i];
    assert(head.of(chars@) == t[i as int]);
    match keyword_at(chars, head) {
        None => Ok((Segment::Path(s.substring_char(head.start, head.end).to_owned()), 1)),
        Some(k) => {
            let n = arity_of(k);
            let left = spans.len() - i - 1;
            if n >= 1 && left < 1 {
                return Err(StackAddrError::MissingPart(missing_of(k, 0)));
            }
            if n >= 2 && left < 2 {
                return Err(StackAddrError::MissingPart(missing_of(k, 1)));
            }
            let none = Span { start: 0, end: 0 };
            assert(none.of(chars@) =~= Seq::<char>::empty());
            let a = if n >= 1 {
                spans[i + 1]
            } else {
                none
            };
            let b = if n >= 2 {
                spans[i + 2]
            } else {
                none
            };
            assert(a.of(chars@) == token_or_none(t, i + 1, n >= 1));
            assert(b.of(chars@) == token_or_none(t, i + 2, n >= 2));
            match make(k, s, chars, a, b) {
                Ok(seg) => Ok((seg, 1 + n)),
                Err(e) => Err(e),
            }
        },
    }
}

/// Reads the text `s` as a sequence of segments.
pub(crate) fn parse_segments(s: &str) -> (r: Result<Vec<Segment>, StackAddrError>)
    ensures
        match parse(s@) {
            Ok(v) => r matches Ok(segs) && views(segs@) == v,
            Err(e) => r matches Err(x) && x@ == e,
        },
{
    let chars = chars_of(s);
    let spans = token_spans(&chars);
    let ghost t = span_texts(spans@, chars@);
    assert(t =~= tokens(s@));
    let mut out: Vec<Segment> = Vec::new();
    let mut i: usize = 0;
    assert(after(views(out@), parse_from(t, 0)) == parse_from(t, 0)) by {
        assert(views(out@) =~= Seq::<SegmentView>::empty());
        match parse_from(t, 0) {
            Ok(rest) => {
                assert(views(out@) + rest =~= rest);
            },
            Err(_) => {},
        }
    }
    while i < spans.len()
        invariant
            s@ == chars@,
            t == span_texts(spans@, chars@),
            t == tokens(s@),
            i <= spans@.len(),
            forall|k: int| 0 <= k < spans@.len() ==> (#[trigger] spans@[k]).within(chars@),
            after(views(out@), parse_from(t, i as int)) == parse_from(t, 0),
        decreases spans@.len() - i,
    {
        match parse_one(s, &chars, &spans, i) {
            Err(e) => {
                return Err(e);
            },
            Ok((seg, n)) => {
                let ghost before = views(out@);
                out.push(seg);
                proof {
                    assert(views(out@) =~= before.push(seg@));
                    match parse_from(t, i + n) {
                        Ok(rest) => {
                            assert(before + (seq![seg@] + rest) =~= before.push(seg@) + rest);
                        },
                        Err(_) => {},
                    }
                }
                i += n;
            },
        }
    }
    proof {
        assert(views(out@) + Seq::<SegmentView>::empty() =~= views(out@));
    }
    Ok(out)
}

} // verus!
