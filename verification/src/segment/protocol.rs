//! Protocol segments: link, network, transport and application layers.

use crate::ip::{Ipv4Addr, Ipv6Addr};
use crate::mac::MacAddr;
use crate::numeral::{append_dec, dec_text};
use vstd::prelude::*;
use vstd::std_specs::cmp::PartialEqSpecImpl;
use vstd::string::*;

verus! {

/// One protocol of an address, with what it carries.
#[derive(Debug, Eq, Hash, PartialOrd, Ord)]
pub enum Protocol {
    /// A hardware address (layer 2).
    Mac(MacAddr),
    /// An IPv4 address (layer 3).
    Ip4(Ipv4Addr),
    /// An IPv6 address (layer 3).
    Ip6(Ipv6Addr),
    /// A host name of either family.
    Dns(String),
    /// A host name to resolve to IPv4.
    Dns4(String),
    /// A host name to resolve to IPv6.
    Dns6(String),
    /// A TCP port (layer 4).
    Tcp(u16),
    /// A UDP port (layer 4).
    Udp(u16),
    /// TLS, over TCP.
    Tls,
    /// QUIC, over UDP.
    Quic,
    Http,
    Https,
    /// WebSocket, with its port.
    Ws(u16),
    /// Secure WebSocket, with its port.
    Wss(u16),
    /// WebTransport, with its port.
    WebTransport(u16),
    WebRTC,
    /// An onion service address.
    Onion(String),
    /// A protocol that this library does not know, by name.
    Custom(String),
}

/// A protocol with its texts as character sequences.
pub enum ProtocolView {
    Mac(MacAddr),
    Ip4(Ipv4Addr),
    Ip6(Ipv6Addr),
    Dns(Seq<char>),
    Dns4(Seq<char>),
    Dns6(Seq<char>),
    Tcp(u16),
    Udp(u16),
    Tls,
    Quic,
    Http,
    Https,
    Ws(u16),
    Wss(u16),
    WebTransport(u16),
    WebRTC,
    Onion(Seq<char>),
    Custom(Seq<char>),
}

impl View for Protocol {
    type V = ProtocolView;

    open spec fn view(&self) -> ProtocolView {
        match self {
            Protocol::Mac(m) => ProtocolView::Mac(*m),
            Protocol::Ip4(a) => ProtocolView::Ip4(*a),
            Protocol::Ip6(a) => ProtocolView::Ip6(*a),
            Protocol::Dns(n) => ProtocolView::Dns(n@),
            Protocol::Dns4(n) => ProtocolView::Dns4(n@),
            Protocol::Dns6(n) => ProtocolView::Dns6(n@),
            Protocol::Tcp(p) => ProtocolView::Tcp(*p),
            Protocol::Udp(p) => ProtocolView::Udp(*p),
            Protocol::Tls => ProtocolView::Tls,
            Protocol::Quic => ProtocolView::Quic,
            Protocol::Http => ProtocolView::Http,
            Protocol::Https => ProtocolView::Https,
            Protocol::Ws(p) => ProtocolView::Ws(*p),
            Protocol::Wss(p) => ProtocolView::Wss(*p),
            Protocol::WebTransport(p) => ProtocolView::WebTransport(*p),
            Protocol::WebRTC => ProtocolView::WebRTC,
            Protocol::Onion(a) => ProtocolView::Onion(a@),
            Protocol::Custom(n) => ProtocolView::Custom(n@),
        }
    }
}

/// The text of a sequence of tokens: each token behind a slash of its own.
pub open spec fn slashed(tokens: Seq<Seq<char>>) -> Seq<char>
    decreases tokens.len(),
{
    if tokens.len() == 0 {
        Seq::empty()
    } else {
        seq!['/'] + tokens[0] + slashed(tokens.skip(1))
    }
}

impl ProtocolView {
    /// The tokens that write the protocol: its keyword, then its value where
    /// it has one.
    pub open spec fn tokens(self) -> Seq<Seq<char>> {
        match self {
            ProtocolView::Mac(m) => seq!["mac"@, m.text()],
            ProtocolView::Ip4(a) => seq!["ip4"@, a.text()],
            ProtocolView::Ip6(a) => seq!["ip6"@, a.text()],
            ProtocolView::Dns(n) => seq!["dns"@, n],
            ProtocolView::Dns4(n) => seq!["dns4"@, n],
            ProtocolView::Dns6(n) => seq!["dns6"@, n],
            ProtocolView::Tcp(p) => seq!["tcp"@, dec_text(p as nat)],
            ProtocolView::Udp(p) => seq!["udp"@, dec_text(p as nat)],
            ProtocolView::Tls => seq!["tls"@],
            ProtocolView::Quic => seq!["quic"@],
            ProtocolView::Http => seq!["http"@],
            ProtocolView::Https => seq!["https"@],
            ProtocolView::Ws(p) => seq!["ws"@, dec_text(p as nat)],
            ProtocolView::Wss(p) => seq!["wss"@, dec_text(p as nat)],
            ProtocolView::WebTransport(p) => seq!["wtr"@, dec_text(p as nat)],
            ProtocolView::WebRTC => seq!["webrtc"@],
            ProtocolView::Onion(a) => seq!["onion"@, a],
            ProtocolView::Custom(n) => seq!["custom"@, n],
        }
    }

    /// The canonical text of the protocol: `/keyword` or `/keyword/value`.
    pub open spec fn text(self) -> Seq<char> {
        slashed(self.tokens())
    }

    /// Whether `self` and `other` are the same variant, whatever they
    /// carry.
    pub open spec fn same_variant(self, other: ProtocolView) -> bool {
        match self {
            ProtocolView::Mac(_) => other is Mac,
            ProtocolView::Ip4(_) => other is Ip4,
            ProtocolView::Ip6(_) => other is Ip6,
            ProtocolView::Dns(_) => other is Dns,
            ProtocolView::Dns4(_) => other is Dns4,
            ProtocolView::Dns6(_) => other is Dns6,
            ProtocolView::Tcp(_) => other is Tcp,
            ProtocolView::Udp(_) => other is Udp,
            ProtocolView::Tls => other is Tls,
            ProtocolView::Quic => other is Quic,
            ProtocolView::Http => other is Http,
            ProtocolView::Https => other is Https,
            ProtocolView::Ws(_) => other is Ws,
            ProtocolView::Wss(_) => other is Wss,
            ProtocolView::WebTransport(_) => other is WebTransport,
            ProtocolView::WebRTC => other is WebRTC,
            ProtocolView::Onion(_) => other is Onion,
            ProtocolView::Custom(_) => other is Custom,
        }
    }
}

/// Appends a slash and the token `tok` to `out`.
pub fn append_token(out: &mut String, tok: &str)
    ensures
        final(out)@ == old(out)@ + slashed(seq![tok@]),
{
    proof {
        reveal_strlit("/");
        reveal_with_fuel(slashed, 2);
    }
    out.append("/");
    out.append(tok);
    assert(final(out)@ =~= old(out)@ + slashed(seq![tok@]));
}

/// Appends a slash and the decimal numeral of `port` to `out`.
pub fn append_port(out: &mut String, port: u16)
    ensures
        final(out)@ == old(out)@ + slashed(seq![dec_text(port as nat)]),
{
    proof {
        reveal_strlit("/");
        reveal_with_fuel(slashed, 2);
    }
    out.append("/");
    append_dec(out, port as u32);
    assert(final(out)@ =~= old(out)@ + slashed(seq![dec_text(port as nat)]));
}

/// The text of two tokens is the text of the first and then that of the
/// second.
pub proof fn lemma_slashed_two(a: Seq<char>, b: Seq<char>)
    ensures
        slashed(seq![a, b]) == slashed(seq![a]) + slashed(seq![b]),
{
    reveal_with_fuel(slashed, 3);
    assert(seq![a, b].skip(1) =~= seq![b]);
    assert(slashed(seq![a, b]) =~= slashed(seq![a]) + slashed(seq![b]));
}

impl Clone for Protocol {
    fn clone(&self) -> (r: Self)
        ensures
            r@ == self@,
    {
        match self {
            Protocol::Mac(m) => Protocol::Mac(*m),
            Protocol::Ip4(a) => Protocol::Ip4(*a),
            Protocol::Ip6(a) => Protocol::Ip6(*a),
            Protocol::Dns(n) => Protocol::Dns(n.clone()),
            Protocol::Dns4(n) => Protocol::Dns4(n.clone()),
            Protocol::Dns6(n) => Protocol::Dns6(n.clone()),
            Protocol::Tcp(p) => Protocol::Tcp(*p),
            Protocol::Udp(p) => Protocol::Udp(*p),
            Protocol::Tls => Protocol::Tls,
            Protocol::Quic => Protocol::Quic,
            Protocol::Http => Protocol::Http,
            Protocol::Https => Protocol::Https,
            Protocol::Ws(p) => Protocol::Ws(*p),
            Protocol::Wss(p) => Protocol::Wss(*p),
            Protocol::WebTransport(p) => Protocol::WebTransport(*p),
            Protocol::WebRTC => Protocol::WebRTC,
            Protocol::Onion(a) => Protocol::Onion(a.clone()),
            Protocol::Custom(n) => Protocol::Custom(n.clone()),
        }
    }
}

impl PartialEq for Protocol {
    fn eq(&self, other: &Self) -> (r: bool) {
        match (self, other) {
            (Protocol::Mac(a), Protocol::Mac(b)) => *a == *b,
            (Protocol::Ip4(a), Protocol::Ip4(b)) => *a == *b,
            (Protocol::Ip6(a), Protocol::Ip6(b)) => *a == *b,
            (Protocol::Dns(a), Protocol::Dns(b)) => *a == *b,
            (Protocol::Dns4(a), Protocol::Dns4(b)) => *a == *b,
            (Protocol::Dns6(a), Protocol::Dns6(b)) => *a == *b,
            (Protocol::Tcp(a), Protocol::Tcp(b)) => *a == *b,
            (Protocol::Udp(a), Protocol::Udp(b)) => *a == *b,
            (Protocol::Tls, Protocol::Tls) => true,
            (Protocol::Quic, Protocol::Quic) => true,
            (Protocol::Http, Protocol::Http) => true,
            (Protocol::Https, Protocol::Https) => true,
            (Protocol::Ws(a), Protocol::Ws(b)) => *a == *b,
            (Protocol::Wss(a), Protocol::Wss(b)) => *a == *b,
            (Protocol::WebTransport(a), Protocol::WebTransport(b)) => *a == *b,
            (Protocol::WebRTC, Protocol::WebRTC) => true,
            (Protocol::Onion(a), Protocol::Onion(b)) => *a == *b,
            (Protocol::Custom(a), Protocol::Custom(b)) => *a == *b,
            _ => false,
        }
    }
}

impl PartialEqSpecImpl for Protocol {
    open spec fn obeys_eq_spec() -> bool {
        true
    }

    open spec fn eq_spec(&self, other: &Self) -> bool {
        self@ == other@
    }
}

impl Protocol {
    /// Whether `self` and `other` are the same variant, whatever they
    /// carry.
    pub fn same_variant(&self, other: &Protocol) -> (r: bool)
        ensures
            r == self@.same_variant(other@),
    {
        match (self, other) {
            (Protocol::Mac(_), Protocol::Mac(_)) => true,
            (Protocol::Ip4(_), Protocol::Ip4(_)) => true,
            (Protocol::Ip6(_), Protocol::Ip6(_)) => true,
            (Protocol::Dns(_), Protocol::Dns(_)) => true,
            (Protocol::Dns4(_), Protocol::Dns4(_)) => true,
            (Protocol::Dns6(_), Protocol::Dns6(_)) => true,
            (Protocol::Tcp(_), Protocol::Tcp(_)) => true,
            (Protocol::Udp(_), Protocol::Udp(_)) => true,
            (Protocol::Tls, Protocol::Tls) => true,
            (Protocol::Quic, Protocol::Quic) => true,
            (Protocol::Http, Protocol::Http) => true,
            (Protocol::Https, Protocol::Https) => true,
            (Protocol::Ws(_), Protocol::Ws(_)) => true,
            (Protocol::Wss(_), Protocol::Wss(_)) => true,
            (Protocol::WebTransport(_), Protocol::WebTransport(_)) => true,
            (Protocol::WebRTC, Protocol::WebRTC) => true,
            (Protocol::Onion(_), Protocol::Onion(_)) => true,
            (Protocol::Custom(_), Protocol::Custom(_)) => true,
            _ => false,
        }
    }

    /// Whether the protocol is one of the transports: TCP, UDP, QUIC,
    /// WebSocket, secure WebSocket or WebTransport.
    pub fn is_transport(&self) -> (r: bool)
        ensures
            r == (self@ is Tcp || self@ is Udp || self@ is Quic || self@ is Ws || self@ is Wss
                || self@ is WebTransport),
    {
        match self {
            Protocol::Tcp(_) | Protocol::Udp(_) | Protocol::Quic | Protocol::Ws(_) | Protocol::Wss(
                _,
            ) | Protocol::WebTransport(_) => true,
            _ => false,
        }
    }

    /// Whether the protocol names a host: an IP address or a DNS name.
    pub fn is_address(&self) -> (r: bool)
        ensures
            r == (self@ is Ip4 || self@ is Ip6 || self@ is Dns || self@ is Dns4 || self@ is Dns6),
    {
        match self {
            Protocol::Ip4(_) | Protocol::Ip6(_) | Protocol::Dns(_) | Protocol::Dns4(_)
            | Protocol::Dns6(_) => true,
            _ => false,
        }
    }

    /// Appends the canonical text of the protocol to `out`.
    pub fn append_to(&self, out: &mut String)
        ensures
            final(out)@ == old(out)@ + self@.text(),
    {
        match self {
            Protocol::Mac(m) => {
                append_token(out, "mac");
                append_token(out, m.to_string().as_str());
                proof {
                    lemma_slashed_two("mac"@, m.text());
                }
            },
            Protocol::Ip4(a) => {
                append_token(out, "ip4");
                append_token(out, a.to_string().as_str());
                proof {
                    lemma_slashed_two("ip4"@, a.text());
                }
            },
            Protocol::Ip6(a) => {
                append_token(out, "ip6");
                append_token(out, a.to_string().as_str());
                proof {
                    lemma_slashed_two("ip6"@, a.text());
                }
            },
            Protocol::Dns(n) => {
                append_token(out, "dns");
                append_token(out, n.as_str());
                proof {
                    lemma_slashed_two("dns"@, n@);
                }
            },
            Protocol::Dns4(n) => {
                append_token(out, "dns4");
                append_token(out, n.as_str());
                proof {
                    lemma_slashed_two("dns4"@, n@);
                }
            },
            Protocol::Dns6(n) => {
                append_token(out, "dns6");
                append_token(out, n.as_str());
                proof {
                    lemma_slashed_two("dns6"@, n@);
                }
            },
            Protocol::Tcp(p) => {
                append_token(out, "tcp");
                append_port(out, *p);
                proof {
                    lemma_slashed_two("tcp"@, dec_text(*p as nat));
                }
            },
            Protocol::Udp(p) => {
                append_token(out, "udp");
                append_port(out, *p);
                proof {
                    lemma_slashed_two("udp"@, dec_text(*p as nat));
                }
            },
            Protocol::Tls => {
                append_token(out, "tls");
            },
            Protocol::Quic => {
                append_token(out, "quic");
            },
            Protocol::Http => {
                append_token(out, "http");
            },
            Protocol::Https => {
                append_token(out, "https");
            },
            Protocol::Ws(p) => {
                append_token(out, "ws");
                append_port(out, *p);
                proof {
                    lemma_slashed_two("ws"@, dec_text(*p as nat));
                }
            },
            Protocol::Wss(p) => {
                append_token(out, "wss");
                append_port(out, *p);
                proof {
                    lemma_slashed_two("wss"@, dec_text(*p as nat));
                }
            },
            Protocol::WebTransport(p) => {
                append_token(out, "wtr");
                append_port(out, *p);
                proof {
                    lemma_slashed_two("wtr"@, dec_text(*p as nat));
                }
            },
            Protocol::WebRTC => {
                append_token(out, "webrtc");
            },
            Protocol::Onion(a) => {
                append_token(out, "onion");
                append_token(out, a.as_str());
                proof {
                    lemma_slashed_two("onion"@, a@);
                }
            },
            Protocol::Custom(n) => {
                append_token(out, "custom");
                append_token(out, n.as_str());
                proof {
                    lemma_slashed_two("custom"@, n@);
                }
            },
        }
        assert(final(out)@ =~= old(out)@ + self@.text());
    }

    /// The canonical text of the protocol, such as `/tcp/443` or `/tls`.
    pub fn to_string(&self) -> (r: String)
        ensures
            r@ == self@.text(),
    {
        let mut out = String::new();
        self.append_to(&mut out);
        assert(out@ =~= self@.text());
        out
    }
}

/// A transport with its port, as `StackAddr::transport` finds it.
#[derive(Debug, Clone, Copy, PartialEq, Eq, Structural, Hash, PartialOrd, Ord)]
pub enum TransportProtocol {
    /// TCP.
    Tcp(u16),
    /// UDP.
    Udp(u16),
    /// TLS over TCP.
    TlsTcp(u16),
    /// QUIC over UDP.
    Quic(u16),
    /// WebSocket.
    Ws(u16),
    /// Secure WebSocket.
    Wss(u16),
    /// WebTransport.
    WebTransport(u16),
}

impl TransportProtocol {
    /// The port of the transport.
    pub open spec fn spec_port(&self) -> u16 {
        match *self {
            TransportProtocol::Tcp(p) => p,
            TransportProtocol::Udp(p) => p,
            TransportProtocol::TlsTcp(p) => p,
            TransportProtocol::Quic(p) => p,
            TransportProtocol::Ws(p) => p,
            TransportProtocol::Wss(p) => p,
            TransportProtocol::WebTransport(p) => p,
        }
    }

    /// The words before the port in the text of the transport.
    pub open spec fn label(self) -> Seq<char> {
        match self {
            TransportProtocol::Tcp(_) => "tcp/"@,
            TransportProtocol::Udp(_) => "udp/"@,
            TransportProtocol::TlsTcp(_) => "tls/tcp/"@,
            TransportProtocol::Quic(_) => "quic/"@,
            TransportProtocol::Ws(_) => "ws/"@,
            TransportProtocol::Wss(_) => "wss/"@,
            TransportProtocol::WebTransport(_) => "wtr/"@,
        }
    }

    /// The text of the transport: its label and its port in decimal.
    pub open spec fn text(self) -> Seq<char> {
        self.label() + dec_text(self.spec_port() as nat)
    }

    /// The port of the transport.
    #[verifier::when_used_as_spec(spec_port)]
    pub fn port(&self) -> (r: u16)
        ensures
            r == self.spec_port(),
    {
        match self {
            TransportProtocol::Tcp(p)
            | TransportProtocol::Udp(p)
            | TransportProtocol::TlsTcp(p)
            | TransportProtocol::Quic(p)
            | TransportProtocol::Ws(p)
            | TransportProtocol::Wss(p)
            | TransportProtocol::WebTransport(p) => *p,
        }
    }

    /// Whether the transport is secured by TLS: TLS over TCP, QUIC, secure
    /// WebSocket and WebTransport are.
    pub fn is_secure(&self) -> (r: bool)
        ensures
            r == (self is TlsTcp || self is Quic || self is Wss || self is WebTransport),
    {
        match self {
            TransportProtocol::TlsTcp(_)
            | TransportProtocol::Quic(_)
            | TransportProtocol::Wss(_)
            | TransportProtocol::WebTransport(_) => true,
            _ => false,
        }
    }

    /// The text of the transport, such as `tls/tcp/443`.
    pub fn to_string(&self) -> (r: String)
        ensures
            r@ == self.text(),
    {
        let mut out = match self {
            TransportProtocol::Tcp(_) => String::from_str("tcp/"),
            TransportProtocol::Udp(_) => String::from_str("udp/"),
            TransportProtocol::TlsTcp(_) => String::from_str("tls/tcp/"),
            TransportProtocol::Quic(_) => String::from_str("quic/"),
            TransportProtocol::Ws(_) => String::from_str("ws/"),
            TransportProtocol::Wss(_) => String::from_str("wss/"),
            TransportProtocol::WebTransport(_) => String::from_str("wtr/"),
        };
        append_dec(&mut out, self.port() as u32);
        out
    }
}

} // verus!
