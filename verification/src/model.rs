//! What the queries and the changes of an address mean, over the sequence
//! of its segments.

use crate::ip::IpAddr;
use crate::mac::MacAddr;
use crate::segment::identity::IdentityView;
use crate::segment::protocol::{ProtocolView, TransportProtocol};
use crate::segment::SegmentView;
use vstd::prelude::*;

verus! {

/// The first answer that `f` gives on the segments of `s`, going from the
/// start.
pub open spec fn first_some<T>(s: Seq<SegmentView>, f: spec_fn(SegmentView) -> Option<T>) -> Option<
    T,
>
    decreases s.len(),
{
    if s.len() == 0 {
        None
    } else {
        match f(s[0]) {
            Some(x) => Some(x),
            None => first_some(s.skip(1), f),
        }
    }
}

/// The address of an IP segment.
pub open spec fn ip_of(seg: SegmentView) -> Option<IpAddr> {
    match seg {
        SegmentView::Protocol(ProtocolView::Ip4(a)) => Some(IpAddr::V4(a)),
        SegmentView::Protocol(ProtocolView::Ip6(a)) => Some(IpAddr::V6(a)),
        _ => None,
    }
}

/// The protocol of an IP segment.
pub open spec fn ip_protocol_of(seg: SegmentView) -> Option<ProtocolView> {
    match seg {
        SegmentView::Protocol(p) => if p is Ip4 || p is Ip6 {
            Some(p)
        } else {
            None
        },
        _ => None,
    }
}

/// The name of a DNS segment of any family.
pub open spec fn name_of(seg: SegmentView) -> Option<Seq<char>> {
    match seg {
        SegmentView::Protocol(ProtocolView::Dns(n)) => Some(n),
        SegmentView::Protocol(ProtocolView::Dns4(n)) => Some(n),
        SegmentView::Protocol(ProtocolView::Dns6(n)) => Some(n),
        _ => None,
    }
}

/// The protocol of a DNS segment of any family.
pub open spec fn dns_protocol_of(seg: SegmentView) -> Option<ProtocolView> {
    match seg {
        SegmentView::Protocol(p) => if p is Dns || p is Dns4 || p is Dns6 {
            Some(p)
        } else {
            None
        },
        _ => None,
    }
}

/// The address of a hardware-address segment.
pub open spec fn mac_of(seg: SegmentView) -> Option<MacAddr> {
    match seg {
        SegmentView::Protocol(ProtocolView::Mac(m)) => Some(m),
        _ => None,
    }
}

/// The port that a segment stands for: the port it carries, or 443 for a
/// QUIC marker, which carries none.
pub open spec fn port_of(seg: SegmentView) -> Option<u16> {
    match seg {
        SegmentView::Protocol(ProtocolView::Tcp(p)) => Some(p),
        SegmentView::Protocol(ProtocolView::Udp(p)) => Some(p),
        SegmentView::Protocol(ProtocolView::Ws(p)) => Some(p),
        SegmentView::Protocol(ProtocolView::Wss(p)) => Some(p),
        SegmentView::Protocol(ProtocolView::WebTransport(p)) => Some(p),
        SegmentView::Protocol(ProtocolView::Quic) => Some(443u16),
        _ => None,
    }
}

/// The identity of an identity segment.
pub open spec fn identity_of(seg: SegmentView) -> Option<IdentityView> {
    match seg {
        SegmentView::Identity(i) => Some(i),
        _ => None,
    }
}

/// The address of the first IP segment.
pub open spec fn first_ip(s: Seq<SegmentView>) -> Option<IpAddr> {
    first_some(s, |seg: SegmentView| ip_of(seg))
}

/// The first IP segment's protocol.
pub open spec fn first_ip_protocol(s: Seq<SegmentView>) -> Option<ProtocolView> {
    first_some(s, |seg: SegmentView| ip_protocol_of(seg))
}

/// The name of the first DNS segment.
pub open spec fn first_name(s: Seq<SegmentView>) -> Option<Seq<char>> {
    first_some(s, |seg: SegmentView| name_of(seg))
}

/// The first DNS segment's protocol.
pub open spec fn first_dns_protocol(s: Seq<SegmentView>) -> Option<ProtocolView> {
    first_some(s, |seg: SegmentView| dns_protocol_of(seg))
}

/// The address of the first hardware-address segment.
pub open spec fn first_mac(s: Seq<SegmentView>) -> Option<MacAddr> {
    first_some(s, |seg: SegmentView| mac_of(seg))
}

/// The port of the first segment that stands for one.
pub open spec fn first_port(s: Seq<SegmentView>) -> Option<u16> {
    first_some(s, |seg: SegmentView| port_of(seg))
}

/// The identity of the first identity segment.
pub open spec fn first_identity(s: Seq<SegmentView>) -> Option<IdentityView> {
    first_some(s, |seg: SegmentView| identity_of(seg))
}

/// Whether some segment of `s` is an IP address.
pub open spec fn has_ip(s: Seq<SegmentView>) -> bool {
    exists|i: int| 0 <= i < s.len() && ip_of(#[trigger] s[i]) is Some
}

/// Whether the segment `seg` is a protocol of the same variant as `p`.
pub open spec fn is_variant(seg: SegmentView, p: ProtocolView) -> bool {
    match seg {
        SegmentView::Protocol(q) => q.same_variant(p),
        _ => false,
    }
}

/// Whether some segment of `s` is a protocol of the same variant as `p`.
pub open spec fn has_variant(s: Seq<SegmentView>, p: ProtocolView) -> bool {
    exists|i: int| 0 <= i < s.len() && is_variant(#[trigger] s[i], p)
}

/// The protocols among the segments of `s`, in order.
pub open spec fn protocols_of(s: Seq<SegmentView>) -> Seq<ProtocolView>
    decreases s.len(),
{
    if s.len() == 0 {
        Seq::empty()
    } else {
        match s[0] {
            SegmentView::Protocol(p) => seq![p] + protocols_of(s.skip(1)),
            _ => protocols_of(s.skip(1)),
        }
    }
}

/// The transport that a scan of `s` from the start finds, with `pending`
/// the TCP or UDP port that the scan has met last. A QUIC marker behind a UDP
/// port and a TLS marker behind a TCP port end the scan with the pair; a
/// marker without such a port is passed over; a WebSocket or WebTransport
/// segment ends the scan at once. At the end the pending port, if any, is the
/// transport.
pub open spec fn transport_from(s: Seq<SegmentView>, pending: Option<TransportProtocol>) -> Option<
    TransportProtocol,
>
    decreases s.len(),
{
    if s.len() == 0 {
        pending
    } else {
        let rest = s.skip(1);
        match s[0] {
            SegmentView::Protocol(ProtocolView::Tcp(p)) => transport_from(
                rest,
                Some(TransportProtocol::Tcp(p)),
            ),
            SegmentView::Protocol(ProtocolView::Udp(p)) => transport_from(
                rest,
                Some(TransportProtocol::Udp(p)),
            ),
            SegmentView::Protocol(ProtocolView::Quic) => match pending {
                Some(TransportProtocol::Udp(p)) => Some(TransportProtocol::Quic(p)),
                _ => transport_from(rest, pending),
            },
            SegmentView::Protocol(ProtocolView::Tls) => match pending {
                Some(TransportProtocol::Tcp(p)) => Some(TransportProtocol::TlsTcp(p)),
                _ => transport_from(rest, pending),
            },
            SegmentView::Protocol(ProtocolView::Ws(p)) => Some(TransportProtocol::Ws(p)),
            SegmentView::Protocol(ProtocolView::Wss(p)) => Some(TransportProtocol::Wss(p)),
            SegmentView::Protocol(ProtocolView::WebTransport(p)) => Some(
                TransportProtocol::WebTransport(p),
            ),
            _ => transport_from(rest, pending),
        }
    }
}

/// The index of the first segment of `s` equal to `t`, or `s.len()` when
/// there is none.
pub open spec fn position(s: Seq<SegmentView>, t: SegmentView) -> int
    decreases s.len(),
{
    if s.len() == 0 || s[0] == t {
        0
    } else {
        1 + position(s.skip(1), t)
    }
}

/// How many segments of `s` are equal to `t`.
pub open spec fn count(s: Seq<SegmentView>, t: SegmentView) -> nat
    decreases s.len(),
{
    if s.len() == 0 {
        0
    } else {
        (if s[0] == t {
            1nat
        } else {
            0nat
        }) + count(s.skip(1), t)
    }
}

/// The segments of `s` that are not equal to `t`, in order.
pub open spec fn without(s: Seq<SegmentView>, t: SegmentView) -> Seq<SegmentView>
    decreases s.len(),
{
    if s.len() == 0 {
        Seq::empty()
    } else if s[0] == t {
        without(s.skip(1), t)
    } else {
        seq![s[0]] + without(s.skip(1), t)
    }
}

/// `s` with `to` in place of every segment equal to `from`.
pub open spec fn replaced(s: Seq<SegmentView>, from: SegmentView, to: SegmentView) -> Seq<
    SegmentView,
> {
    Seq::new(
        s.len(),
        |i: int|
            if s[i] == from {
                to
            } else {
                s[i]
            },
    )
}

/// The protocol that stands for the address `ip`.
pub open spec fn ip_protocol(ip: IpAddr) -> ProtocolView {
    match ip {
        IpAddr::V4(a) => ProtocolView::Ip4(a),
        IpAddr::V6(a) => ProtocolView::Ip6(a),
    }
}

/// The segment `seg` after resolution to `ip`: a DNS segment of any family
/// becomes the IP segment of `ip`, any other segment stays.
pub open spec fn resolved_segment(seg: SegmentView, ip: IpAddr) -> SegmentView {
    if name_of(seg) is Some {
        SegmentView::Protocol(ip_protocol(ip))
    } else {
        seg
    }
}

/// `s` with every DNS segment resolved to `ip`.
pub open spec fn resolved_to(s: Seq<SegmentView>, ip: IpAddr) -> Seq<SegmentView> {
    Seq::new(s.len(), |i: int| resolved_segment(s[i], ip))
}

/// The canonical text of the segments `s`: the texts of the segments one
/// after another, with nothing between them.
pub open spec fn render(s: Seq<SegmentView>) -> Seq<char>
    decreases s.len(),
{
    if s.len() == 0 {
        Seq::empty()
    } else {
        render(s.drop_last()) + s.last().text()
    }
}

/// Whether every base32 text in `s` is known to decode to its bytes.
pub open spec fn all_faithful(s: Seq<SegmentView>) -> bool {
    forall|i: int| 0 <= i < s.len() ==> (#[trigger] s[i]).faithful()
}

/// `position` is within the address, stands at a segment equal to `t` if
/// there is one, and has none before it.
pub proof fn lemma_position(s: Seq<SegmentView>, t: SegmentView)
    ensures
        0 <= position(s, t) <= s.len(),
        forall|j: int| 0 <= j < position(s, t) ==> s[j] != t,
        position(s, t) < s.len() ==> s[position(s, t)] == t,
        position(s, t) < s.len() <==> s.contains(t),
    decreases s.len(),
{
    if s.len() == 0 || s[0] == t {
        if s.len() > 0 {
            assert(s.contains(t));
        }
    } else {
        let r = s.skip(1);
        lemma_position(r, t);
        assert forall|j: int| 0 <= j < position(s, t) implies s[j] != t by {
            if j > 0 {
                assert(r[j - 1] == s[j]);
            }
        }
        if position(s, t) < s.len() {
            assert(r[position(r, t)] == s[position(s, t)]);
            assert(s.contains(t));
        }
        if s.contains(t) {
            let k = choose|k: int| 0 <= k < s.len() && s[k] == t;
            assert(r[k - 1] == t);
            assert(r.contains(t));
        }
    }
}

/// One step of `first_some`: the answer from index `i` on is that of the
/// segment at `i`, or else the answer from `i + 1` on.
pub proof fn lemma_first_some_step<T>(
    s: Seq<SegmentView>,
    f: spec_fn(SegmentView) -> Option<T>,
    i: int,
)
    requires
        0 <= i <= s.len(),
    ensures
        first_some(s.skip(i), f) == if i == s.len() {
            None
        } else {
            match f(s[i]) {
                Some(x) => Some(x),
                None => first_some(s.skip(i + 1), f),
            }
        },
{
    if i < s.len() {
        assert(s.skip(i).skip(1) =~= s.skip(i + 1));
    }
}

} // verus!
