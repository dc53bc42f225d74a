//! Identity segments: node and peer identifiers, UUIDs and custom kinds.
//!
//! In text, identifier bytes are written in base32 (RFC 4648, no padding); a
//! UUID is written as thirty-two hexadecimal digits.

use bytes::Bytes;
use crate::codec::{
    base32_bytes, base32_decode, base32_encode, base32_faithful, base32_text, base64url_encode,
    base64url_text, bytes_as_slice, bytes_eq, bytes_from_vec, contents,
};
use crate::error::{ErrorView, StackAddrError};
use crate::numeral::hex_pairs;
use crate::segment::protocol::{append_token, lemma_slashed_two, slashed};
use crate::uid::Uuid;
use vstd::prelude::*;
use vstd::std_specs::cmp::PartialEqSpecImpl;
use vstd::string::*;

verus! {

/// Who stands at an address.
#[derive(Debug, Eq, Hash, PartialOrd, Ord)]
pub enum Identity {
    /// A node identifier, such as a public key.
    NodeId(Bytes),
    /// A peer identifier.
    PeerId(Bytes),
    /// A universally unique identifier.
    Uuid(Uuid),
    /// An identifier of a kind that the address names itself.
    Custom { kind: String, id: Bytes },
}

/// An identity with its bytes and texts as sequences.
pub enum IdentityView {
    NodeId(Seq<u8>),
    PeerId(Seq<u8>),
    Uuid(Seq<u8>),
    Custom { kind: Seq<char>, id: Seq<u8> },
}

impl View for Identity {
    type V = IdentityView;

    open spec fn view(&self) -> IdentityView {
        match self {
            Identity::NodeId(b) => IdentityView::NodeId(contents(*b)),
            Identity::PeerId(b) => IdentityView::PeerId(contents(*b)),
            Identity::Uuid(u) => IdentityView::Uuid(u@),
            Identity::Custom { kind, id } => IdentityView::Custom { kind: kind@, id: contents(*id) },
        }
    }
}

impl IdentityView {
    /// The bytes of the identifier, whatever its variant.
    pub open spec fn id_bytes(self) -> Seq<u8> {
        match self {
            IdentityView::NodeId(b) => b,
            IdentityView::PeerId(b) => b,
            IdentityView::Uuid(b) => b,
            IdentityView::Custom { kind, id } => id,
        }
    }

    /// The tokens that write the identity: its keyword, the kind where it
    /// has one, and its bytes in base32, or in hexadecimal for a UUID.
    pub open spec fn tokens(self) -> Seq<Seq<char>> {
        match self {
            IdentityView::NodeId(b) => seq!["node"@, base32_text(b)],
            IdentityView::PeerId(b) => seq!["peer"@, base32_text(b)],
            IdentityView::Uuid(b) => seq!["uuid"@, hex_pairs(b)],
            IdentityView::Custom { kind, id } => seq!["identity"@, kind, base32_text(id)],
        }
    }

    /// The canonical text of the identity.
    pub open spec fn text(self) -> Seq<char> {
        slashed(self.tokens())
    }

    /// Whether the base32 text of the identity, where it has one, is known
    /// to be in the base32 alphabet and to decode to its bytes.
    pub open spec fn faithful(self) -> bool {
        match self {
            IdentityView::Uuid(_) => true,
            _ => base32_faithful(self.id_bytes()),
        }
    }
}

impl Clone for Identity {
    fn clone(&self) -> (r: Self)
        ensures
            r@ == self@,
    {
        match self {
            Identity::NodeId(b) => Identity::NodeId(b.clone()),
            Identity::PeerId(b) => Identity::PeerId(b.clone()),
            Identity::Uuid(u) => Identity::Uuid(*u),
            Identity::Custom { kind, id } => Identity::Custom { kind: kind.clone(), id: id.clone() },
        }
    }
}

impl PartialEq for Identity {
    fn eq(&self, other: &Self) -> (r: bool) {
        match (self, other) {
            (Identity::NodeId(a), Identity::NodeId(b)) => bytes_eq(a, b),
            (Identity::PeerId(a), Identity::PeerId(b)) => bytes_eq(a, b),
            (Identity::Uuid(a), Identity::Uuid(b)) => *a == *b,
            (Identity::Custom { kind: ka, id: a }, Identity::Custom { kind: kb, id: b }) => *ka
                == *kb && bytes_eq(a, b),
            _ => false,
        }
    }
}

impl PartialEqSpecImpl for Identity {
    open spec fn obeys_eq_spec() -> bool {
        true
    }

    open spec fn eq_spec(&self, other: &Self) -> bool {
        self@ == other@
    }
}

impl Identity {
    /// The bytes of the identifier, whatever its variant; for a UUID its
    /// sixteen bytes.
    pub fn id_bytes(&self) -> (r: &[u8])
        ensures
            r@ == self@.id_bytes(),
            self@ is Uuid ==> r@.len() == 16,
    {
        match self {
            Identity::NodeId(b) => bytes_as_slice(b),
            Identity::PeerId(b) => bytes_as_slice(b),
            Identity::Custom { kind, id } => bytes_as_slice(id),
            Identity::Uuid(u) => u.as_bytes().as_slice(),
        }
    }

    /// The identifier bytes in base32 (RFC 4648, no padding).
    pub fn to_base32(&self) -> (r: String)
        ensures
            r@ == base32_text(self@.id_bytes()),
            base32_faithful(self@.id_bytes()),
    {
        base32_encode(self.id_bytes())
    }

    /// The identifier bytes in URL-safe base64 without padding.
    pub fn to_base64url(&self) -> (r: String)
        ensures
            r@ == base64url_text(self@.id_bytes()),
    {
        base64url_encode(self.id_bytes())
    }

    /// The node identity of decoded bytes, or the error of a text that did
    /// not decode.
    pub fn node_from(decoded: Option<Vec<u8>>) -> (r: Result<Identity, StackAddrError>)
        ensures
            match decoded {
                Some(v) => r matches Ok(i) && i@ == IdentityView::NodeId(v@),
                None => r matches Err(e) && e@ == ErrorView::InvalidEncoding("base32 node id"@),
            },
    {
        match decoded {
            Some(v) => Ok(Identity::NodeId(bytes_from_vec(v))),
            None => Err(StackAddrError::InvalidEncoding("base32 node id")),
        }
    }

    /// The peer identity of decoded bytes, or the error of a text that did
    /// not decode.
    pub fn peer_from(decoded: Option<Vec<u8>>) -> (r: Result<Identity, StackAddrError>)
        ensures
            match decoded {
                Some(v) => r matches Ok(i) && i@ == IdentityView::PeerId(v@),
                None => r matches Err(e) && e@ == ErrorView::InvalidEncoding("base32 peer id"@),
            },
    {
        match decoded {
            Some(v) => Ok(Identity::PeerId(bytes_from_vec(v))),
            None => Err(StackAddrError::InvalidEncoding("base32 peer id")),
        }
    }

    /// The identity of the kind `kind` of decoded bytes, or the error of a
    /// text that did not decode.
    pub fn custom_from(kind: &str, decoded: Option<Vec<u8>>) -> (r: Result<
        Identity,
        StackAddrError,
    >)
        ensures
            match decoded {
                Some(v) => r matches Ok(i) && i@ == (IdentityView::Custom { kind: kind@, id: v@ }),
                None => r matches Err(e) && e@ == ErrorView::InvalidEncoding("base32 identity"@),
            },
    {
        match decoded {
            Some(v) => Ok(Identity::Custom { kind: kind.to_owned(), id: bytes_from_vec(v) }),
            None => Err(StackAddrError::InvalidEncoding("base32 identity")),
        }
    }

    /// The node identity that the base32 text `encoded` stands for.
    pub fn from_base32_node(encoded: &str) -> (r: Result<Identity, StackAddrError>)
        ensures
            match base32_bytes(encoded@) {
                Some(b) => r matches Ok(i) && i@ == IdentityView::NodeId(b),
                None => r matches Err(e) && e@ == ErrorView::InvalidEncoding("base32 node id"@),
            },
    {
        Identity::node_from(base32_decode(encoded))
    }

    /// The peer identity that the base32 text `encoded` stands for.
    pub fn from_base32_peer(encoded: &str) -> (r: Result<Identity, StackAddrError>)
        ensures
            match base32_bytes(encoded@) {
                Some(b) => r matches Ok(i) && i@ == IdentityView::PeerId(b),
                None => r matches Err(e) && e@ == ErrorView::InvalidEncoding("base32 peer id"@),
            },
    {
        Identity::peer_from(base32_decode(encoded))
    }

    /// The identity of the kind `kind` that the base32 text `encoded` stands
    /// for.
    pub fn from_base32_custom(kind: &str, encoded: &str) -> (r: Result<Identity, StackAddrError>)
        ensures
            match base32_bytes(encoded@) {
                Some(b) => r matches Ok(i) && i@ == (IdentityView::Custom { kind: kind@, id: b }),
                None => r matches Err(e) && e@ == ErrorView::InvalidEncoding("base32 identity"@),
            },
    {
        Identity::custom_from(kind, base32_decode(encoded))
    }

    /// Appends the canonical text of the identity to `out`.
    pub fn append_to(&self, out: &mut String)
        ensures
            final(out)@ == old(out)@ + self@.text(),
            self@.faithful(),
    {
        match self {
            Identity::NodeId(b) => {
                let text = base32_encode(bytes_as_slice(b));
                append_token(out, "node");
                append_token(out, text.as_str());
                proof {
                    lemma_slashed_two("node"@, text@);
                }
            },
            Identity::PeerId(b) => {
                let text = base32_encode(bytes_as_slice(b));
                append_token(out, "peer");
                append_token(out, text.as_str());
                proof {
                    lemma_slashed_two("peer"@, text@);
                }
            },
            Identity::Uuid(u) => {
                append_token(out, "uuid");
                append_token(out, u.to_string().as_str());
                proof {
                    lemma_slashed_two("uuid"@, u.text());
                }
            },
            Identity::Custom { kind, id } => {
                let text = base32_encode(bytes_as_slice(id));
                append_token(out, "identity");
                append_token(out, kind.as_str());
                append_token(out, text.as_str());
                proof {
                    lemma_slashed_two(kind@, text@);
                    reveal_with_fuel(slashed, 4);
                    assert(seq!["identity"@, kind@, text@].skip(1) =~= seq![kind@, text@]);
                }
            },
        }
        assert(final(out)@ =~= old(out)@ + self@.text());
    }

    /// The canonical text of the identity, such as `/node/<base32>`.
    pub fn to_string(&self) -> (r: String)
        ensures
            r@ == self@.text(),
            self@.faithful(),
    {
        let mut out = String::new();
        self.append_to(&mut out);
        assert(out@ =~= self@.text());
        out
    }
}

} // verus!
