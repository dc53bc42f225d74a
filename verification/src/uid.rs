//! Universally unique identifiers as sixteen plain bytes.

use crate::numeral::{hex_pairs, lemma_digits_free, lemma_hex_pairs, paired_bytes};
use crate::text::free_of;
use vstd::prelude::*;
use vstd::std_specs::cmp::PartialEqSpecImpl;

verus! {

/// A 128-bit identifier, held as its sixteen bytes in network order.
#[derive(Clone, Copy, Debug, Eq, PartialOrd, Ord, Hash)]
pub struct Uuid {
    bytes: [u8; 16],
}

impl View for Uuid {
    type V = Seq<u8>;

    closed spec fn view(&self) -> Seq<u8> {
        self.bytes@
    }
}

impl PartialEq for Uuid {
    fn eq(&self, other: &Self) -> (r: bool) {
        let mut i: usize = 0;
        while i < 16
            invariant
                i <= 16,
                forall|j: int| 0 <= j < i ==> self.bytes@[j] == other.bytes@[j],
            decreases 16 - i,
        {
            if self.bytes[i] != other.bytes[i] {
                return false;
            }
            i += 1;
        }
        assert(self.bytes@ =~= other.bytes@);
        true
    }
}

impl PartialEqSpecImpl for Uuid {
    open spec fn obeys_eq_spec() -> bool {
        true
    }

    open spec fn eq_spec(&self, other: &Self) -> bool {
        self@ == other@
    }
}

/// The thirty-two characters of a hyphenated identifier `t` that are not its
/// four hyphens, which stand after the 8th, 12th, 16th and 20th of them.
pub open spec fn unhyphened(t: Seq<char>) -> Option<Seq<char>> {
    if t.len() == 36 && t[8] == '-' && t[13] == '-' && t[18] == '-' && t[23] == '-' {
        Some(
            t.subrange(0, 8) + t.subrange(9, 13) + t.subrange(14, 18) + t.subrange(19, 23)
                + t.subrange(24, 36),
        )
    } else {
        None
    }
}

/// Whether `p` is `urn:uuid:` in letters of either case.
pub open spec fn is_urn_prefix(p: Seq<char>) -> bool {
    &&& p.len() == 9
    &&& (p[0] == 'u' || p[0] == 'U')
    &&& (p[1] == 'r' || p[1] == 'R')
    &&& (p[2] == 'n' || p[2] == 'N')
    &&& p[3] == ':'
    &&& (p[4] == 'u' || p[4] == 'U')
    &&& (p[5] == 'u' || p[5] == 'U')
    &&& (p[6] == 'i' || p[6] == 'I')
    &&& (p[7] == 'd' || p[7] == 'D')
    &&& p[8] == ':'
}

/// The thirty-two characters that stand for the digits in an identifier
/// written in one of four forms: bare, hyphenated, hyphenated in braces, or
/// hyphenated behind `urn:uuid:`.
pub open spec fn uuid_digits(t: Seq<char>) -> Option<Seq<char>> {
    if t.len() == 32 {
        Some(t)
    } else if t.len() == 36 {
        unhyphened(t)
    } else if t.len() == 38 && t[0] == '{' && t[37] == '}' {
        unhyphened(t.subrange(1, 37))
    } else if t.len() == 45 && is_urn_prefix(t.take(9)) {
        unhyphened(t.skip(9))
    } else {
        None
    }
}

/// The sixteen bytes that the text `t` writes, if it is an identifier.
pub open spec fn uuid_of_text(t: Seq<char>) -> Option<Seq<u8>> {
    match uuid_digits(t) {
        Some(d) => paired_bytes(d),
        None => None,
    }
}

/// An identifier that a text writes has sixteen bytes.
pub proof fn lemma_uuid_of_text_len(t: Seq<char>)
    ensures
        uuid_of_text(t) matches Some(b) ==> b.len() == 16,
{
}

impl Uuid {
    /// The bare text of the identifier: thirty-two lower-case hexadecimal
    /// digits, no hyphens.
    pub open spec fn text(self) -> Seq<char> {
        hex_pairs(self@)
    }

    /// An identifier has sixteen bytes.
    pub proof fn lemma_sixteen_bytes(self)
        ensures
            self@.len() == 16,
    {
    }

    /// The identifier with the sixteen bytes.
    pub fn from_bytes(bytes: [u8; 16]) -> (r: Uuid)
        ensures
            r@ == bytes@,
    {
        Uuid { bytes }
    }

    /// The sixteen bytes of the identifier.
    pub fn as_bytes(&self) -> (r: &[u8; 16])
        ensures
            r@ == self@,
    {
        &self.bytes
    }

    /// Parses an identifier in any of its four written forms.
    pub fn parse_str(s: &str) -> (r: Option<Uuid>)
        ensures
            match r {
                Some(u) => uuid_of_text(s@) == Some(u@),
                None => uuid_of_text(s@) is None,
            },
    {
        match uuid_from_str(s) {
            Some(bytes) => Some(Uuid { bytes }),
            None => None,
        }
    }

    /// The bare text of the identifier.
    pub fn to_string(&self) -> (r: String)
        ensures
            r@ == self.text(),
    {
        uuid_to_simple(&self.bytes)
    }

    /// Reading the bare text of an identifier gives the identifier back, and
    /// the text is one token.
    pub proof fn lemma_text_round_trip(self)
        ensures
            uuid_of_text(self.text()) == Some(self@),
            free_of(self.text(), '/'),
            self.text().len() == 32,
    {
        lemma_hex_pairs(self@);
        lemma_digits_free(self.text());
    }
}

/// `uuid::Uuid::parse_str`. The crate goes by the length of the text: 32 for
/// the bare form, 36 for the hyphenated one, 38 for that in braces, 45 for
/// that behind `urn:uuid:` in either case; the hyphens stand at fixed places
/// and every other character is a hexadecimal digit of either case.
#[verifier::external_body]
fn uuid_from_str(s: &str) -> (r: Option<[u8; 16]>)
    ensures
        match r {
            Some(b) => uuid_of_text(s@) == Some(b@),
            None => uuid_of_text(s@) is None,
        },
{
    match uuid::Uuid::parse_str(s) {
        Ok(u) => Some(u.into_bytes()),
        Err(_) => None,
    }
}

/// `Display` of `uuid::fmt::Simple`: two lower-case hexadecimal digits for
/// each byte, first byte first.
#[verifier::external_body]
fn uuid_to_simple(bytes: &[u8; 16]) -> (r: String)
    ensures
        r@ == hex_pairs(bytes@),
{
    uuid::Uuid::from_bytes(*bytes).simple().to_string()
}

} // verus!
