//! The address: an ordered stack of segments, with its queries and its
//! changes.

use crate::error::{ErrorView, StackAddrError};
use crate::grammar::{parse, parse_segments};
use crate::ip::{IpAddr, Ipv4Addr, Ipv6Addr};
use crate::mac::MacAddr;
use crate::model::{
    all_faithful, count, dns_protocol_of, first_dns_protocol, first_identity, first_ip,
    first_ip_protocol, first_mac, first_name, first_port, has_ip, has_variant, identity_of, ip_of,
    ip_protocol, ip_protocol_of, is_variant, lemma_first_some_step, lemma_position, mac_of, name_of,
    port_of, position, protocols_of, render, replaced, resolved_segment, resolved_to,
    transport_from, without,
};
use crate::segment::identity::Identity;
use crate::segment::protocol::{Protocol, ProtocolView, TransportProtocol};
use crate::segment::{views, Segment, SegmentView};
use vstd::prelude::*;
use vstd::std_specs::cmp::PartialEqSpecImpl;
use vstd::string::*;

verus! {

/// A layered address: segments in the order in which they were put on.
#[derive(Debug, Eq, Hash, PartialOrd, Ord)]
pub struct StackAddr {
    segments: Vec<Segment>,
}

impl View for StackAddr {
    type V = Seq<SegmentView>;

    closed spec fn view(&self) -> Seq<SegmentView> {
        views(self.segments@)
    }
}

impl Clone for StackAddr {
    fn clone(&self) -> (r: Self)
        ensures
            r@ == self@,
    {
        StackAddr::from_parts(self.segments.as_slice())
    }
}

impl PartialEq for StackAddr {
    fn eq(&self, other: &Self) -> (r: bool) {
        let n = self.segments.len();
        if other.segments.len() != n {
            assert(self@.len() != other@.len());
            return false;
        }
        let mut i: usize = 0;
        while i < n
            invariant
                n == self.segments@.len(),
                n == other.segments@.len(),
                i <= n,
                forall|j: int| 0 <= j < i ==> self.segments@[j]@ == other.segments@[j]@,
            decreases n - i,
        {
            if !(self.segments[i] == other.segments[i]) {
                assert(self@[i as int] != other@[i as int]);
                return false;
            }
            i += 1;
        }
        assert(self@ =~= other@);
        true
    }
}

impl PartialEqSpecImpl for StackAddr {
    open spec fn obeys_eq_spec() -> bool {
        true
    }

    open spec fn eq_spec(&self, other: &Self) -> bool {
        self@ == other@
    }
}

impl StackAddr {
    /// The address with the segments `segments`.
    pub fn new(segments: Vec<Segment>) -> (r: StackAddr)
        ensures
            r@ == views(segments@),
    {
        StackAddr { segments }
    }

    /// The address with copies of the segments `segments`.
    pub fn from_parts(segments: &[Segment]) -> (r: StackAddr)
        ensures
            r@ == views(segments@),
    {
        let mut out: Vec<Segment> = Vec::new();
        let mut i: usize = 0;
        while i < segments.len()
            invariant
                i <= segments.len(),
                out@.len() == i,
                views(out@) == views(segments@.take(i as int)),
            decreases segments.len() - i,
        {
            let ghost before = out@;
            out.push(segments[i].clone());
            proof {
                assert forall|j: int| 0 <= j < i + 1 implies views(out@)[j] == views(
                    segments@.take(i + 1),
                )[j] by {
                    if j < i {
                        assert(views(before)[j] == views(segments@.take(i as int))[j]);
                    }
                }
                assert(views(out@) =~= views(segments@.take(i + 1)));
            }
            i += 1;
        }
        assert(segments@.take(segments.len() as int) =~= segments@);
        StackAddr { segments: out }
    }

    /// The address without segments.
    pub fn empty() -> (r: StackAddr)
        ensures
            r@ == Seq::<SegmentView>::empty(),
    {
        let r = StackAddr { segments: Vec::new() };
        assert(r@ =~= Seq::<SegmentView>::empty());
        r
    }

    /// The address with `segment` put on.
    pub fn with(self, segment: Segment) -> (r: StackAddr)
        ensures
            r@ == self@.push(segment@),
    {
        let mut this = self;
        this.push(segment);
        this
    }

    /// The address with the protocol `protocol` put on.
    pub fn with_protocol(self, protocol: Protocol) -> (r: StackAddr)
        ensures
            r@ == self@.push(SegmentView::Protocol(protocol@)),
    {
        self.with(Segment::Protocol(protocol))
    }

    /// The address with the identity `identity` put on.
    pub fn with_identity(self, identity: Identity) -> (r: StackAddr)
        ensures
            r@ == self@.push(SegmentView::Identity(identity@)),
    {
        self.with(Segment::Identity(identity))
    }

    /// The address with the path component `path` put on.
    pub fn with_path(self, path: &str) -> (r: StackAddr)
        ensures
            r@ == self@.push(SegmentView::Path(path@)),
    {
        self.with(Segment::Path(path.to_owned()))
    }

    /// The address with the pair of `key` and `value` put on.
    pub fn with_meta(self, key: &str, value: &str) -> (r: StackAddr)
        ensures
            r@ == self@.push(SegmentView::Metadata(key@, value@)),
    {
        self.with(Segment::Metadata(key.to_owned(), value.to_owned()))
    }

    /// The address with the hardware address `addr` put on.
    pub fn with_mac(self, addr: MacAddr) -> (r: StackAddr)
        ensures
            r@ == self@.push(SegmentView::Protocol(ProtocolView::Mac(addr))),
    {
        self.with(Segment::Protocol(Protocol::Mac(addr)))
    }

    /// The address with the hardware address that `addr` writes put on, or
    /// the error of a text that writes none.
    pub fn try_with_mac_str(self, addr: &str) -> (r: Result<StackAddr, StackAddrError>)
        ensures
            match MacAddr::from_text(addr@) {
                Some(m) => r matches Ok(a) && a@ == self@.push(
                    SegmentView::Protocol(ProtocolView::Mac(m)),
                ),
                None => r matches Err(e) && e@ == ErrorView::InvalidEncoding("mac"@),
            },
    {
        match MacAddr::parse(addr) {
            Some(m) => Ok(self.with_mac(m)),
            None => Err(StackAddrError::InvalidEncoding("mac")),
        }
    }

    /// The address with the IPv4 address `addr` put on.
    pub fn with_ipv4(self, addr: Ipv4Addr) -> (r: StackAddr)
        ensures
            r@ == self@.push(SegmentView::Protocol(ProtocolView::Ip4(addr))),
    {
        self.with(Segment::Protocol(Protocol::Ip4(addr)))
    }

    /// The address with the IPv6 address `addr` put on.
    pub fn with_ipv6(self, addr: Ipv6Addr) -> (r: StackAddr)
        ensures
            r@ == self@.push(SegmentView::Protocol(ProtocolView::Ip6(addr))),
    {
        self.with(Segment::Protocol(Protocol::Ip6(addr)))
    }

    /// The address with the IP address `addr` put on, as a segment of its
    /// family.
    pub fn with_ip(self, addr: IpAddr) -> (r: StackAddr)
        ensures
            r@ == self@.push(SegmentView::Protocol(ip_protocol(addr))),
    {
        match addr {
            IpAddr::V4(a) => self.with_ipv4(a),
            IpAddr::V6(a) => self.with_ipv6(a),
        }
    }

    /// The address with the host name `name` put on.
    pub fn with_dns_name(self, name: &str) -> (r: StackAddr)
        ensures
            r@ == self@.push(SegmentView::Protocol(ProtocolView::Dns(name@))),
    {
        self.with(Segment::Protocol(Protocol::Dns(name.to_owned())))
    }

    /// The address with the host name `name`, to resolve to IPv4, put on.
    pub fn with_dns4_name(self, name: &str) -> (r: StackAddr)
        ensures
            r@ == self@.push(SegmentView::Protocol(ProtocolView::Dns4(name@))),
    {
        self.with(Segment::Protocol(Protocol::Dns4(name.to_owned())))
    }

    /// The address with the host name `name`, to resolve to IPv6, put on.
    pub fn with_dns6_name(self, name: &str) -> (r: StackAddr)
        ensures
            r@ == self@.push(SegmentView::Protocol(ProtocolView::Dns6(name@))),
    {
        self.with(Segment::Protocol(Protocol::Dns6(name.to_owned())))
    }

    /// The segments of the address, in order.
    pub fn segments(&self) -> (r: &[Segment])
        ensures
            views(r@) == self@,
    {
        self.segments.as_slice()
    }

    /// Whether the address has no segments.
    pub fn is_empty(&self) -> (r: bool)
        ensures
            r == (self@.len() == 0),
    {
        self.segments.is_empty()
    }

    /// Puts `segment` on the address.
    pub fn push(&mut self, segment: Segment)
        ensures
            final(self)@ == old(self)@.push(segment@),
    {
        self.segments.push(segment);
        assert(views(self.segments@) =~= views(old(self).segments@).push(segment@));
    }

    /// Takes the last segment off the address, if it has one.
    pub fn pop(&mut self) -> (r: Option<Segment>)
        ensures
            match r {
                Some(seg) => old(self)@.len() > 0 && seg@ == old(self)@.last() && final(self)@
                    == old(self)@.drop_last(),
                None => old(self)@.len() == 0 && final(self)@ == old(self)@,
            },
    {
        let r = self.segments.pop();
        assert(views(self.segments@) =~= if old(self)@.len() > 0 {
            old(self)@.drop_last()
        } else {
            old(self)@
        });
        r
    }

    /// Whether some segment of the address is equal to `target`.
    pub fn contains(&self, target: &Segment) -> (r: bool)
        ensures
            r == self@.contains(target@),
    {
        let mut i: usize = 0;
        while i < self.segments.len()
            invariant
                i <= self.segments@.len(),
                forall|j: int| 0 <= j < i ==> self@[j] != target@,
            decreases self.segments@.len() - i,
        {
            if self.segments[i] == *target {
                assert(self@[i as int] == target@);
                return true;
            }
            i += 1;
        }
        false
    }

    /// Whether the address has a protocol segment of the same variant as
    /// `protocol`, whatever the two carry: an address with any IPv4 segment
    /// supports every IPv4 protocol.
    pub fn supports(&self, protocol: &Protocol) -> (r: bool)
        ensures
            r == has_variant(self@, protocol@),
    {
        let mut i: usize = 0;
        while i < self.segments.len()
            invariant
                i <= self.segments@.len(),
                forall|j: int| 0 <= j < i ==> !is_variant(#[trigger] self@[j], protocol@),
            decreases self.segments@.len() - i,
        {
            match &self.segments[i] {
                Segment::Protocol(p) => {
                    if p.same_variant(protocol) {
                        assert(is_variant(self@[i as int], protocol@));
                        return true;
                    }
                },
                _ => {},
            }
            i += 1;
        }
        false
    }

    /// The index of the first segment equal to `target`, or the number of
    /// segments when none is.
    fn index_of(&self, target: &Segment) -> (r: usize)
        ensures
            r == position(self@, target@),
            r <= self.segments@.len(),
    {
        let mut i: usize = 0;
        assert(self@.skip(0) =~= self@);
        while i < self.segments.len()
            invariant
                i <= self.segments@.len(),
                position(self@, target@) == i + position(self@.skip(i as int), target@),
            decreases self.segments@.len() - i,
        {
            proof {
                assert(self@.skip(i as int).skip(1) =~= self@.skip(i + 1));
                assert(self@.skip(i as int)[0] == self@[i as int]);
            }
            if self.segments[i] == *target {
                return i;
            }
            i += 1;
        }
        i
    }

    /// Puts `to` in the place of the first segment equal to `from`, and says
    /// whether there was one.
    pub fn replace(&mut self, from: &Segment, to: Segment) -> (r: bool)
        ensures
            r == old(self)@.contains(from@),
            r ==> final(self)@ == old(self)@.update(position(old(self)@, from@), to@),
            !r ==> final(self)@ == old(self)@,
    {
        proof {
            lemma_position(self@, from@);
        }
        let pos = self.index_of(from);
        if pos < self.segments.len() {
            self.segments.set(pos, to);
            assert(views(self.segments@) =~= old(self)@.update(pos as int, to@));
            true
        } else {
            false
        }
    }

    /// Puts a copy of `to` in the place of every segment equal to `from`,
    /// and says how many there were.
    pub fn replace_all(&mut self, from: &Segment, to: Segment) -> (r: usize)
        ensures
            r == count(old(self)@, from@),
            final(self)@ == replaced(old(self)@, from@, to@),
    {
        let n = self.segments.len();
        let mut hits: usize = 0;
        let mut i: usize = 0;
        assert(self@.skip(0) =~= self@);
        while i < n
            invariant
                n == self.segments@.len(),
                n == old(self)@.len(),
                i <= n,
                hits <= i,
                count(old(self)@, from@) == hits + count(old(self)@.skip(i as int), from@),
                forall|j: int| 0 <= j < i ==> self@[j] == replaced(old(self)@, from@, to@)[j],
                forall|j: int| i <= j < n ==> self@[j] == old(self)@[j],
            decreases n - i,
        {
            proof {
                assert(old(self)@.skip(i as int).skip(1) =~= old(self)@.skip(i + 1));
                assert(old(self)@.skip(i as int)[0] == old(self)@[i as int]);
            }
            let ghost before = self@;
            if self.segments[i] == *from {
                self.segments.set(i, to.clone());
                hits += 1;
            }
            proof {
                assert forall|j: int| 0 <= j < i + 1 implies self@[j] == replaced(
                    old(self)@,
                    from@,
                    to@,
                )[j] by {
                    if j < i {
                        assert(self@[j] == before[j]);
                    }
                }
                assert forall|j: int| i + 1 <= j < n implies self@[j] == old(self)@[j] by {
                    assert(self@[j] == before[j]);
                }
            }
            i += 1;
        }
        assert(self@ =~= replaced(old(self)@, from@, to@));
        hits
    }

    /// Takes the first segment equal to `target` out of the address, and
    /// says whether there was one.
    pub fn remove(&mut self, target: &Segment) -> (r: bool)
        ensures
            r == old(self)@.contains(target@),
            r ==> final(self)@ == old(self)@.remove(position(old(self)@, target@)),
            !r ==> final(self)@ == old(self)@,
    {
        proof {
            lemma_position(self@, target@);
        }
        let pos = self.index_of(target);
        if pos < self.segments.len() {
            self.segments.remove(pos);
            assert(views(self.segments@) =~= old(self)@.remove(pos as int));
            true
        } else {
            false
        }
    }

    /// Takes every segment equal to `target` out of the address, and says
    /// how many there were.
    pub fn remove_all(&mut self, target: &Segment) -> (r: usize)
        ensures
            r == count(old(self)@, target@),
            final(self)@ == without(old(self)@, target@),
    {
        let total = self.segments.len();
        let mut hits: usize = 0;
        let mut i: usize = 0;
        assert(self@.len() == total);
        assert(self@.skip(0) =~= self@);
        assert(self@.take(0) =~= Seq::<SegmentView>::empty());
        while i < self.segments.len()
            invariant
                i <= self.segments@.len(),
                hits + self.segments@.len() == old(self)@.len(),
                old(self)@.len() == total,
                count(old(self)@, target@) == hits + count(self@.skip(i as int), target@),
                without(old(self)@, target@) == self@.take(i as int) + without(
                    self@.skip(i as int),
                    target@,
                ),
            decreases self.segments@.len() - i,
        {
            let ghost before = self@;
            proof {
                assert(before.skip(i as int).skip(1) =~= before.skip(i + 1));
                assert(before.skip(i as int)[0] == before[i as int]);
            }
            if self.segments[i] == *target {
                self.segments.remove(i);
                hits += 1;
                proof {
                    assert(self@ =~= before.remove(i as int));
                    assert(self@.skip(i as int) =~= before.skip(i + 1));
                    assert(self@.take(i as int) =~= before.take(i as int));
                }
            } else {
                proof {
                    assert(before.take(i as int) + (seq![before[i as int]] + without(
                        before.skip(i + 1),
                        target@,
                    )) =~= before.take(i + 1) + without(before.skip(i + 1), target@));
                }
                i += 1;
            }
        }
        proof {
            assert(self@.skip(i as int) =~= Seq::<SegmentView>::empty());
            assert(self@.take(i as int) =~= self@);
        }
        hits
    }

    /// Rewrites every DNS segment, of any family, to the IP segment of
    /// `ip_addr`; the other segments stay as they are.
    pub fn resolve(&mut self, ip_addr: IpAddr)
        ensures
            final(self)@ == resolved_to(old(self)@, ip_addr),
    {
        let n = self.segments.len();
        let mut i: usize = 0;
        while i < n
            invariant
                n == self.segments@.len(),
                n == old(self)@.len(),
                i <= n,
                forall|j: int| 0 <= j < i ==> self@[j] == resolved_segment(old(self)@[j], ip_addr),
                forall|j: int| i <= j < n ==> self@[j] == old(self)@[j],
            decreases n - i,
        {
            let ghost before = self@;
            let is_dns = match &self.segments[i] {
                Segment::Protocol(Protocol::Dns(_))
                | Segment::Protocol(Protocol::Dns4(_))
                | Segment::Protocol(Protocol::Dns6(_)) => true,
                _ => false,
            };
            if is_dns {
                let seg = match ip_addr {
                    IpAddr::V4(a) => Segment::Protocol(Protocol::Ip4(a)),
                    IpAddr::V6(a) => Segment::Protocol(Protocol::Ip6(a)),
                };
                self.segments.set(i, seg);
            }
            proof {
                assert forall|j: int| 0 <= j < i + 1 implies self@[j] == resolved_segment(
                    old(self)@[j],
                    ip_addr,
                ) by {
                    if j < i {
                        assert(self@[j] == before[j]);
                    }
                }
                assert forall|j: int| i + 1 <= j < n implies self@[j] == old(self)@[j] by {
                    assert(self@[j] == before[j]);
                }
            }
            i += 1;
        }
        assert(self@ =~= resolved_to(old(self)@, ip_addr));
    }

    /// The protocols among the segments, in order.
    pub fn protocols(&self) -> (r: Vec<&Protocol>)
        ensures
            r@.len() == protocols_of(self@).len(),
            forall|k: int| 0 <= k < r@.len() ==> (#[trigger] r@[k])@ == protocols_of(self@)[k],
    {
        let mut out: Vec<&Protocol> = Vec::new();
        let mut i: usize = 0;
        let ghost mut done: Seq<ProtocolView> = Seq::empty();
        assert(self@.skip(0) =~= self@);
        while i < self.segments.len()
            invariant
                i <= self.segments@.len(),
                out@.len() == done.len(),
                forall|k: int| 0 <= k < out@.len() ==> (#[trigger] out@[k])@ == done[k],
                protocols_of(self@) == done + protocols_of(self@.skip(i as int)),
            decreases self.segments@.len() - i,
        {
            proof {
                assert(self@.skip(i as int).skip(1) =~= self@.skip(i + 1));
                assert(self@.skip(i as int)[0] == self@[i as int]);
            }
            match &self.segments[i] {
                Segment::Protocol(p) => {
                    proof {
                        assert(done + (seq![p@] + protocols_of(self@.skip(i + 1))) =~= done.push(
                            p@,
                        ) + protocols_of(self@.skip(i + 1)));
                        done = done.push(p@);
                    }
                    out.push(p);
                },
                _ => {},
            }
            i += 1;
        }
        proof {
            assert(protocols_of(self@.skip(i as int)) =~= Seq::<ProtocolView>::empty());
            assert(protocols_of(self@) =~= done);
        }
        out
    }

    /// The transport of the address, if a scan from the start finds one; see
    /// `transport_from`.
    pub fn transport(&self) -> (r: Option<TransportProtocol>)
        ensures
            r == transport_from(self@, None),
    {
        let mut pending: Option<TransportProtocol> = None;
        let mut i: usize = 0;
        assert(self@.skip(0) =~= self@);
        while i < self.segments.len()
            invariant
                i <= self.segments@.len(),
                transport_from(self@, None) == transport_from(self@.skip(i as int), pending),
            decreases self.segments@.len() - i,
        {
            proof {
                assert(self@.skip(i as int).skip(1) =~= self@.skip(i + 1));
                assert(self@.skip(i as int)[0] == self@[i as int]);
            }
            match &self.segments[i] {
                Segment::Protocol(Protocol::Tcp(p)) => {
                    pending = Some(TransportProtocol::Tcp(*p));
                },
                Segment::Protocol(Protocol::Udp(p)) => {
                    pending = Some(TransportProtocol::Udp(*p));
                },
                Segment::Protocol(Protocol::Quic) => {
                    if let Some(TransportProtocol::Udp(p)) = pending {
                        return Some(TransportProtocol::Quic(p));
                    }
                },
                Segment::Protocol(Protocol::Tls) => {
                    if let Some(TransportProtocol::Tcp(p)) = pending {
                        return Some(TransportProtocol::TlsTcp(p));
                    }
                },
                Segment::Protocol(Protocol::Ws(p)) => {
                    return Some(TransportProtocol::Ws(*p));
                },
                Segment::Protocol(Protocol::Wss(p)) => {
                    return Some(TransportProtocol::Wss(*p));
                },
                Segment::Protocol(Protocol::WebTransport(p)) => {
                    return Some(TransportProtocol::WebTransport(*p));
                },
                _ => {},
            }
            i += 1;
        }
        pending
    }

    /// The address of the first hardware-address segment, if there is one.
    pub fn mac(&self) -> (r: Option<MacAddr>)
        ensures
            r == first_mac(self@),
    {
        let mut i: usize = 0;
        assert(self@.skip(0) =~= self@);
        while i < self.segments.len()
            invariant
                i <= self.segments@.len(),
                first_mac(self@) == first_mac(self@.skip(i as int)),
            decreases self.segments@.len() - i,
        {
            proof {
                lemma_first_some_step(self@, |seg: SegmentView| mac_of(seg), i as int);
            }
            match &self.segments[i] {
                Segment::Protocol(Protocol::Mac(m)) => {
                    return Some(*m);
                },
                _ => {},
            }
            i += 1;
        }
        proof {
            lemma_first_some_step(self@, |seg: SegmentView| mac_of(seg), i as int);
        }
        None
    }

    /// The address of the first IP segment, if there is one.
    pub fn ip(&self) -> (r: Option<IpAddr>)
        ensures
            r == first_ip(self@),
    {
        let mut i: usize = 0;
        assert(self@.skip(0) =~= self@);
        while i < self.segments.len()
            invariant
                i <= self.segments@.len(),
                first_ip(self@) == first_ip(self@.skip(i as int)),
            decreases self.segments@.len() - i,
        {
            proof {
                lemma_first_some_step(self@, |seg: SegmentView| ip_of(seg), i as int);
            }
            match &self.segments[i] {
                Segment::Protocol(Protocol::Ip4(a)) => {
                    return Some(IpAddr::V4(*a));
                },
                Segment::Protocol(Protocol::Ip6(a)) => {
                    return Some(IpAddr::V6(*a));
                },
                _ => {},
            }
            i += 1;
        }
        proof {
            lemma_first_some_step(self@, |seg: SegmentView| ip_of(seg), i as int);
        }
        None
    }

    /// The port of the first segment that stands for one: the port of a
    /// TCP, UDP, WebSocket, secure WebSocket or WebTransport segment, or 443
    /// for a QUIC marker that no such segment stands before.
    pub fn port(&self) -> (r: Option<u16>)
        ensures
            r == first_port(self@),
    {
        let mut i: usize = 0;
        assert(self@.skip(0) =~= self@);
        while i < self.segments.len()
            invariant
                i <= self.segments@.len(),
                first_port(self@) == first_port(self@.skip(i as int)),
            decreases self.segments@.len() - i,
        {
            proof {
                lemma_first_some_step(self@, |seg: SegmentView| port_of(seg), i as int);
            }
            match &self.segments[i] {
                Segment::Protocol(Protocol::Tcp(p)) => {
                    return Some(*p);
                },
                Segment::Protocol(Protocol::Udp(p)) => {
                    return Some(*p);
                },
                Segment::Protocol(Protocol::Ws(p)) => {
                    return Some(*p);
                },
                Segment::Protocol(Protocol::Wss(p)) => {
                    return Some(*p);
                },
                Segment::Protocol(Protocol::WebTransport(p)) => {
                    return Some(*p);
                },
                Segment::Protocol(Protocol::Quic) => {
                    return Some(443);
                },
                _ => {},
            }
            i += 1;
        }
        proof {
            lemma_first_some_step(self@, |seg: SegmentView| port_of(seg), i as int);
        }
        None
    }

    /// The name of the first DNS segment of any family, if there is one.
    pub fn name(&self) -> (r: Option<&str>)
        ensures
            match r {
                Some(n) => first_name(self@) == Some(n@),
                None => first_name(self@) is None,
            },
    {
        let mut i: usize = 0;
        assert(self@.skip(0) =~= self@);
        while i < self.segments.len()
            invariant
                i <= self.segments@.len(),
                first_name(self@) == first_name(self@.skip(i as int)),
            decreases self.segments@.len() - i,
        {
            proof {
                lemma_first_some_step(self@, |seg: SegmentView| name_of(seg), i as int);
            }
            match &self.segments[i] {
                Segment::Protocol(Protocol::Dns(n)) => {
                    return Some(n.as_str());
                },
                Segment::Protocol(Protocol::Dns4(n)) => {
                    return Some(n.as_str());
                },
                Segment::Protocol(Protocol::Dns6(n)) => {
                    return Some(n.as_str());
                },
                _ => {},
            }
            i += 1;
        }
        proof {
            lemma_first_some_step(self@, |seg: SegmentView| name_of(seg), i as int);
        }
        None
    }

    /// The first IP address and the first port together, if the address
    /// has both.
    pub fn socket_addr(&self) -> (r: Option<(IpAddr, u16)>)
        ensures
            r == match (first_ip(self@), first_port(self@)) {
                (Some(ip), Some(port)) => Some((ip, port)),
                _ => None,
            },
    {
        match self.ip() {
            Some(ip) => match self.port() {
                Some(port) => Some((ip, port)),
                None => None,
            },
            None => None,
        }
    }

    /// The host and the port to connect to: the text of the first IP
    /// address, or else the first DNS name, with the first port. Without a
    /// port the error names the transport port; with a port but without a
    /// host it names the host.
    pub fn host_port(&self) -> (r: Result<(String, u16), StackAddrError>)
        ensures
            match first_port(self@) {
                None => r matches Err(e) && e@ == ErrorView::MissingPart("transport port"@),
                Some(port) => match first_ip(self@) {
                    Some(ip) => r matches Ok(hp) && hp.0@ == ip.text() && hp.1 == port,
                    None => match first_name(self@) {
                        Some(n) => r matches Ok(hp) && hp.0@ == n && hp.1 == port,
                        None => r matches Err(e) && e@ == ErrorView::MissingPart(
                            "ip or dns name"@,
                        ),
                    },
                },
            },
    {
        let port = match self.port() {
            Some(p) => p,
            None => {
                return Err(StackAddrError::MissingPart("transport port"));
            },
        };
        if let Some(ip) = self.ip() {
            return Ok((ip.to_string(), port));
        }
        if let Some(name) = self.name() {
            return Ok((name.to_owned(), port));
        }
        Err(StackAddrError::MissingPart("ip or dns name"))
    }

    /// Whether the address is resolved: whether one of its segments is an
    /// IP address.
    pub fn resolved(&self) -> (r: bool)
        ensures
            r == has_ip(self@),
    {
        let mut i: usize = 0;
        while i < self.segments.len()
            invariant
                i <= self.segments@.len(),
                forall|j: int| 0 <= j < i ==> ip_of(#[trigger] self@[j]) is None,
            decreases self.segments@.len() - i,
        {
            match &self.segments[i] {
                Segment::Protocol(Protocol::Ip4(_)) | Segment::Protocol(Protocol::Ip6(_)) => {
                    assert(ip_of(self@[i as int]) is Some);
                    return true;
                },
                _ => {},
            }
            i += 1;
        }
        false
    }

    /// The first IP segment's protocol, if there is one.
    pub fn get_ip(&self) -> (r: Option<&Protocol>)
        ensures
            match r {
                Some(p) => first_ip_protocol(self@) == Some(p@),
                None => first_ip_protocol(self@) is None,
            },
    {
        let mut i: usize = 0;
        assert(self@.skip(0) =~= self@);
        while i < self.segments.len()
            invariant
                i <= self.segments@.len(),
                first_ip_protocol(self@) == first_ip_protocol(self@.skip(i as int)),
            decreases self.segments@.len() - i,
        {
            proof {
                lemma_first_some_step(self@, |seg: SegmentView| ip_protocol_of(seg), i as int);
            }
            match &self.segments[i] {
                Segment::Protocol(p) => {
                    match p {
                        Protocol::Ip4(_) | Protocol::Ip6(_) => {
                            return Some(p);
                        },
                        _ => {},
                    }
                },
                _ => {},
            }
            i += 1;
        }
        proof {
            lemma_first_some_step(self@, |seg: SegmentView| ip_protocol_of(seg), i as int);
        }
        None
    }

    /// The first DNS segment's protocol, if there is one.
    pub fn get_dns(&self) -> (r: Option<&Protocol>)
        ensures
            match r {
                Some(p) => first_dns_protocol(self@) == Some(p@),
                None => first_dns_protocol(self@) is None,
            },
    {
        let mut i: usize = 0;
        assert(self@.skip(0) =~= self@);
        while i < self.segments.len()
            invariant
                i <= self.segments@.len(),
                first_dns_protocol(self@) == first_dns_protocol(self@.skip(i as int)),
            decreases self.segments@.len() - i,
        {
            proof {
                lemma_first_some_step(self@, |seg: SegmentView| dns_protocol_of(seg), i as int);
            }
            match &self.segments[i] {
                Segment::Protocol(p) => {
                    match p {
                        Protocol::Dns(_) | Protocol::Dns4(_) | Protocol::Dns6(_) => {
                            return Some(p);
                        },
                        _ => {},
                    }
                },
                _ => {},
            }
            i += 1;
        }
        proof {
            lemma_first_some_step(self@, |seg: SegmentView| dns_protocol_of(seg), i as int);
        }
        None
    }

    /// The identity of the first identity segment, if there is one.
    pub fn get_identity(&self) -> (r: Option<&Identity>)
        ensures
            match r {
                Some(id) => first_identity(self@) == Some(id@),
                None => first_identity(self@) is None,
            },
    {
        let mut i: usize = 0;
        assert(self@.skip(0) =~= self@);
        while i < self.segments.len()
            invariant
                i <= self.segments@.len(),
                first_identity(self@) == first_identity(self@.skip(i as int)),
            decreases self.segments@.len() - i,
        {
            proof {
                lemma_first_some_step(self@, |seg: SegmentView| identity_of(seg), i as int);
            }
            match &self.segments[i] {
                Segment::Identity(id) => {
                    return Some(id);
                },
                _ => {},
            }
            i += 1;
        }
        proof {
            lemma_first_some_step(self@, |seg: SegmentView| identity_of(seg), i as int);
        }
        None
    }

    /// The canonical text of the address. Having written it, the address
    /// knows of each base32 text in it that it decodes to its bytes.
    pub fn to_string(&self) -> (r: String)
        ensures
            r@ == render(self@),
            all_faithful(self@),
    {
        let mut out = String::new();
        let mut i: usize = 0;
        assert(self@.take(0) =~= Seq::<SegmentView>::empty());
        while i < self.segments.len()
            invariant
                i <= self.segments@.len(),
                out@ == render(self@.take(i as int)),
                all_faithful(self@.take(i as int)),
            decreases self.segments@.len() - i,
        {
            self.segments[i].append_to(&mut out);
            proof {
                let next = self@.take(i + 1);
                assert(next.drop_last() =~= self@.take(i as int));
                assert(next.last() == self.segments@[i as int]@);
                assert forall|j: int| 0 <= j < next.len() implies (#[trigger] next[j]).faithful() by {
                    if j < i {
                        assert(next[j] == self@.take(i as int)[j]);
                    }
                }
            }
            i += 1;
        }
        assert(self@.take(i as int) =~= self@);
        out
    }

    /// Parses the text `s`: splits it at the slashes, drops the empty
    /// tokens, and reads the others from left to right as the grammar says.
    /// The result is the whole address or the first error, never a part.
    pub fn from_str(s: &str) -> (r: Result<StackAddr, StackAddrError>)
        ensures
            match parse(s@) {
                Ok(v) => r matches Ok(a) && a@ == v,
                Err(e) => r matches Err(x) && x@ == e,
            },
    {
        match parse_segments(s) {
            Ok(segments) => Ok(StackAddr { segments }),
            Err(e) => Err(e),
        }
    }
}

impl std::str::FromStr for StackAddr {
    type Err = StackAddrError;

    /// Parses the text `s` as `StackAddr::from_str` does.
    fn from_str(s: &str) -> (r: Result<Self, Self::Err>)
        ensures
            match parse(s@) {
                Ok(v) => r matches Ok(a) && a@ == v,
                Err(e) => r matches Err(x) && x@ == e,
            },
    {
        StackAddr::from_str(s)
    }
}

} // verus!
