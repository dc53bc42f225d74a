//! The segments that an address is made of.

pub mod identity;
pub mod protocol;

use crate::segment::identity::{Identity, IdentityView};
use crate::segment::protocol::{append_token, lemma_slashed_two, slashed, Protocol, ProtocolView};
use vstd::prelude::*;
use vstd::std_specs::cmp::PartialEqSpecImpl;
use vstd::string::*;

verus! {

/// One segment of an address.
#[derive(Debug, Eq, Hash, PartialOrd, Ord)]
pub enum Segment {
    /// A protocol of some layer.
    Protocol(Protocol),
    /// An identity.
    Identity(Identity),
    /// One component of a resource path.
    Path(String),
    /// A key and its value, written `/meta/<key>/<value>`.
    Metadata(String, String),
}

/// A segment with its texts as character sequences.
pub enum SegmentView {
    Protocol(ProtocolView),
    Identity(IdentityView),
    Path(Seq<char>),
    Metadata(Seq<char>, Seq<char>),
}

impl View for Segment {
    type V = SegmentView;

    open spec fn view(&self) -> SegmentView {
        match self {
            Segment::Protocol(p) => SegmentView::Protocol(p@),
            Segment::Identity(i) => SegmentView::Identity(i@),
            Segment::Path(p) => SegmentView::Path(p@),
            Segment::Metadata(k, v) => SegmentView::Metadata(k@, v@),
        }
    }
}

impl SegmentView {
    /// The tokens that write the segment.
    pub open spec fn tokens(self) -> Seq<Seq<char>> {
        match self {
            SegmentView::Protocol(p) => p.tokens(),
            SegmentView::Identity(i) => i.tokens(),
            SegmentView::Path(p) => seq![p],
            SegmentView::Metadata(k, v) => seq!["meta"@, k, v],
        }
    }

    /// The canonical text of the segment: each of its tokens behind a
    /// slash.
    pub open spec fn text(self) -> Seq<char> {
        slashed(self.tokens())
    }

    /// Whether the base32 text of the segment, where it has one, is known
    /// to decode to its bytes.
    pub open spec fn faithful(self) -> bool {
        match self {
            SegmentView::Identity(i) => i.faithful(),
            _ => true,
        }
    }
}

/// The views of the segments `s`, in order.
pub open spec fn views(s: Seq<Segment>) -> Seq<SegmentView> {
    Seq::new(s.len(), |i: int| s[i]@)
}

impl Clone for Segment {
    fn clone(&self) -> (r: Self)
        ensures
            r@ == self@,
    {
        match self {
            Segment::Protocol(p) => Segment::Protocol(p.clone()),
            Segment::Identity(i) => Segment::Identity(i.clone()),
            Segment::Path(p) => Segment::Path(p.clone()),
            Segment::Metadata(k, v) => Segment::Metadata(k.clone(), v.clone()),
        }
    }
}

impl PartialEq for Segment {
    fn eq(&self, other: &Self) -> (r: bool) {
        match (self, other) {
            (Segment::Protocol(a), Segment::Protocol(b)) => *a == *b,
            (Segment::Identity(a), Segment::Identity(b)) => *a == *b,
            (Segment::Path(a), Segment::Path(b)) => *a == *b,
            (Segment::Metadata(ka, va), Segment::Metadata(kb, vb)) => *ka == *kb && *va == *vb,
            _ => false,
        }
    }
}

impl PartialEqSpecImpl for Segment {
    open spec fn obeys_eq_spec() -> bool {
        true
    }

    open spec fn eq_spec(&self, other: &Self) -> bool {
        self@ == other@
    }
}

impl Segment {
    /// Appends the canonical text of the segment to `out`.
    pub fn append_to(&self, out: &mut String)
        ensures
            final(out)@ == old(out)@ + self@.text(),
            self@.faithful(),
    {
        match self {
            Segment::Protocol(p) => p.append_to(out),
            Segment::Identity(i) => i.append_to(out),
            Segment::Path(p) => append_token(out, p.as_str()),
            Segment::Metadata(k, v) => {
                append_token(out, "meta");
                append_token(out, k.as_str());
                append_token(out, v.as_str());
                proof {
                    lemma_slashed_two(k@, v@);
                    reveal_with_fuel(slashed, 4);
                    assert(seq!["meta"@, k@, v@].skip(1) =~= seq![k@, v@]);
                    assert(final(out)@ =~= old(out)@ + self@.text());
                }
            },
        }
    }

    /// The canonical text of the segment.
    pub fn to_string(&self) -> (r: String)
        ensures
            r@ == self@.text(),
            self@.faithful(),
    {
        let mut out = String::new();
        self.append_to(&mut out);
        assert(out@ =~= self@.text());
        out
    }
}

} // verus!
