//! What holds of every address, whatever calls made it.

use crate::ip::{IpAddr, Ipv4Addr};
use crate::model::{
    count, first_ip, first_port, first_some, has_ip, ip_of, name_of, port_of, resolved_segment,
    resolved_to, without,
};
use crate::segment::protocol::ProtocolView;
use crate::segment::SegmentView;
use vstd::prelude::*;

verus! {

/// After every segment equal to `t` was taken out, none is left: `contains`
/// says no.
pub proof fn lemma_remove_all_then_contains(s: Seq<SegmentView>, t: SegmentView)
    ensures
        !without(s, t).contains(t),
    decreases s.len(),
{
    if s.len() == 0 {
    } else {
        lemma_remove_all_then_contains(s.skip(1), t);
        let rest = without(s.skip(1), t);
        if s[0] != t {
            assert forall|i: int| 0 <= i < without(s, t).len() implies without(s, t)[i] != t by {
                if i > 0 {
                    assert(without(s, t)[i] == rest[i - 1]);
                    assert(rest.contains(rest[i - 1]));
                }
            }
        }
    }
}

/// Taking out every segment equal to `t` shortens the address by the number
/// of segments equal to `t`.
pub proof fn lemma_without_len(s: Seq<SegmentView>, t: SegmentView)
    ensures
        without(s, t).len() + count(s, t) == s.len(),
    decreases s.len(),
{
    if s.len() > 0 {
        lemma_without_len(s.skip(1), t);
    }
}

/// With one more segment at the end, the first answer is the one there was,
/// or else that of the new segment.
pub proof fn lemma_first_some_push<T>(
    s: Seq<SegmentView>,
    seg: SegmentView,
    f: spec_fn(SegmentView) -> Option<T>,
)
    ensures
        first_some(s.push(seg), f) == match first_some(s, f) {
            Some(x) => Some(x),
            None => f(seg),
        },
    decreases s.len(),
{
    let all = s.push(seg);
    if s.len() == 0 {
        assert(all[0] == seg);
        assert(all.skip(1) =~= Seq::<SegmentView>::empty());
        assert(first_some(all.skip(1), f) is None);
        assert(first_some(s, f) is None);
        assert(first_some(all, f) == f(seg));
    } else {
        assert(all[0] == s[0]);
        assert(all.skip(1) =~= s.skip(1).push(seg));
        lemma_first_some_push(s.skip(1), seg, f);
    }
}

/// After an IPv4 segment was put on, `ip` gives its address, unless an IP
/// segment stood in the address before: then `ip` gives that one, as the
/// first match wins.
pub proof fn lemma_ip_after_with_protocol(s: Seq<SegmentView>, x: Ipv4Addr)
    ensures
        first_ip(s) is None ==> first_ip(s.push(SegmentView::Protocol(ProtocolView::Ip4(x))))
            == Some(IpAddr::V4(x)),
        first_ip(s) is Some ==> first_ip(s.push(SegmentView::Protocol(ProtocolView::Ip4(x))))
            == first_ip(s),
{
    lemma_first_some_push(
        s,
        SegmentView::Protocol(ProtocolView::Ip4(x)),
        |seg: SegmentView| ip_of(seg),
    );
}

/// After a TCP segment was put on, `port` gives its port, unless a segment
/// that stands for a port stood in the address before: then `port` gives
/// that one.
pub proof fn lemma_port_after_with_protocol(s: Seq<SegmentView>, p: u16)
    ensures
        first_port(s) is None ==> first_port(s.push(SegmentView::Protocol(ProtocolView::Tcp(p))))
            == Some(p),
        first_port(s) is Some ==> first_port(s.push(SegmentView::Protocol(ProtocolView::Tcp(p))))
            == first_port(s),
{
    lemma_first_some_push(
        s,
        SegmentView::Protocol(ProtocolView::Tcp(p)),
        |seg: SegmentView| port_of(seg),
    );
}

/// The address that a segment names once the address is resolved to `ip`:
/// `ip` for a DNS segment, its own address for an IP segment.
pub open spec fn host_of(seg: SegmentView, ip: IpAddr) -> Option<IpAddr> {
    if name_of(seg) is Some {
        Some(ip)
    } else {
        ip_of(seg)
    }
}

/// Whether some segment of `s` is a DNS name.
pub open spec fn has_dns(s: Seq<SegmentView>) -> bool {
    exists|i: int| 0 <= i < s.len() && name_of(#[trigger] s[i]) is Some
}

/// An address has an IP segment exactly when `first_ip` finds one.
pub proof fn lemma_has_ip(s: Seq<SegmentView>)
    ensures
        has_ip(s) <==> first_ip(s) is Some,
    decreases s.len(),
{
    if s.len() == 0 {
    } else {
        let r = s.skip(1);
        lemma_has_ip(r);
        if has_ip(s) {
            let i = choose|i: int| 0 <= i < s.len() && ip_of(#[trigger] s[i]) is Some;
            if i > 0 {
                assert(r[i - 1] == s[i]);
                assert(has_ip(r));
            }
        }
        if has_ip(r) {
            let i = choose|i: int| 0 <= i < r.len() && ip_of(#[trigger] r[i]) is Some;
            assert(s[i + 1] == r[i]);
        }
        if ip_of(s[0]) is Some {
            assert(has_ip(s));
        }
    }
}

/// What `ip` gives after `resolve`: the address of the first segment that
/// names a host, where a DNS segment names `ip`.
pub proof fn lemma_ip_after_resolve(s: Seq<SegmentView>, ip: IpAddr)
    ensures
        first_ip(resolved_to(s, ip)) == first_some(s, |seg: SegmentView| host_of(seg, ip)),
    decreases s.len(),
{
    let r = resolved_to(s, ip);
    if s.len() == 0 {
    } else {
        assert(r[0] == resolved_segment(s[0], ip));
        assert(r.skip(1) =~= resolved_to(s.skip(1), ip));
        lemma_ip_after_resolve(s.skip(1), ip);
    }
}

/// The address of the first IP segment that stands before every DNS
/// segment, if there is such a segment.
pub open spec fn ip_before_names(s: Seq<SegmentView>) -> Option<IpAddr>
    decreases s.len(),
{
    if s.len() == 0 || name_of(s[0]) is Some {
        None
    } else if ip_of(s[0]) is Some {
        ip_of(s[0])
    } else {
        ip_before_names(s.skip(1))
    }
}

/// The first host after resolution is the IP address that stands before
/// every DNS segment, or else `ip`.
proof fn lemma_first_host(s: Seq<SegmentView>, ip: IpAddr)
    requires
        has_dns(s),
    ensures
        first_some(s, |seg: SegmentView| host_of(seg, ip)) == match ip_before_names(s) {
            Some(x) => Some(x),
            None => Some(ip),
        },
    decreases s.len(),
{
    if s.len() > 0 {
        if name_of(s[0]) is Some || ip_of(s[0]) is Some {
        } else {
            let r = s.skip(1);
            let i = choose|i: int| 0 <= i < s.len() && name_of(#[trigger] s[i]) is Some;
            assert(r[i - 1] == s[i]);
            assert(has_dns(r));
            lemma_first_host(r, ip);
        }
    }
}

/// `resolve` on an address with a DNS segment makes it resolved, and makes
/// `ip` give the supplied address, unless an IP segment stood before the
/// first DNS segment: then `ip` gives the address of that segment, as
/// before.
pub proof fn lemma_resolve(s: Seq<SegmentView>, ip: IpAddr)
    requires
        has_dns(s),
    ensures
        has_ip(resolved_to(s, ip)),
        first_ip(resolved_to(s, ip)) == match ip_before_names(s) {
            Some(x) => Some(x),
            None => Some(ip),
        },
{
    let r = resolved_to(s, ip);
    let i = choose|i: int| 0 <= i < s.len() && name_of(#[trigger] s[i]) is Some;
    assert(r[i] == resolved_segment(s[i], ip));
    assert(ip_of(r[i]) is Some);
    assert(has_ip(r));
    lemma_ip_after_resolve(s, ip);
    lemma_first_host(s, ip);
}

} // verus!
