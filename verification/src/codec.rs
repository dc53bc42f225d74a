//! Byte buffers and their base32 and base64 texts.

use bytes::Bytes;
use crate::text::free_of;
use vstd::prelude::*;

verus! {

/// `bytes::Bytes`, a cheaply cloneable buffer of bytes. What it holds is
/// `contents`.
#[verifier::external_type_specification]
#[verifier::external_body]
pub struct ExBytes(Bytes);

/// The bytes that a buffer holds, first byte first.
pub uninterp spec fn contents(b: Bytes) -> Seq<u8>;

/// `Clone` of `bytes::Bytes`: the copy holds the same bytes.
pub assume_specification[ <Bytes as Clone>::clone ](b: &Bytes) -> (r: Bytes)
    ensures
        contents(r) == contents(*b),
;

/// `From<Vec<u8>>` of `bytes::Bytes`: the buffer takes the vector's bytes
/// over as they are.
#[verifier::external_body]
pub(crate) fn bytes_from_vec(v: Vec<u8>) -> (r: Bytes)
    ensures
        contents(r) == v@,
{
    Bytes::from(v)
}

/// `AsRef<[u8]>` of `bytes::Bytes`: the buffer seen as a slice.
#[verifier::external_body]
pub(crate) fn bytes_as_slice(b: &Bytes) -> (r: &[u8])
    ensures
        r@ == contents(*b),
{
    b.as_ref()
}

/// `PartialEq` of `bytes::Bytes`, which compares the two buffers as slices.
#[verifier::external_body]
pub(crate) fn bytes_eq(a: &Bytes, b: &Bytes) -> (r: bool)
    ensures
        r == (contents(*a) == contents(*b)),
{
    a == b
}

/// The base32 text of `data` in the alphabet of RFC 4648, without padding.
pub uninterp spec fn base32_text(data: Seq<u8>) -> Seq<char>;

/// The bytes that the unpadded RFC 4648 base32 text `t` stands for, if it
/// stands for any.
pub uninterp spec fn base32_bytes(t: Seq<char>) -> Option<Seq<u8>>;

/// The base64 text of `data` in the URL-safe alphabet, without padding.
pub uninterp spec fn base64url_text(data: Seq<u8>) -> Seq<char>;

/// A character of the RFC 4648 base32 alphabet: `A` to `Z` and `2` to `7`.
pub open spec fn is_base32_char(c: char) -> bool {
    ('A' <= c && c <= 'Z') || ('2' <= c && c <= '7')
}

/// What holds of the base32 text of `data` once it was encoded: it decodes
/// to `data` again, has a character for every five bits or part of five, and
/// is written in the base32 alphabet.
pub open spec fn base32_faithful(data: Seq<u8>) -> bool {
    &&& base32_bytes(base32_text(data)) == Some(data)
    &&& base32_text(data).len() == (data.len() * 8 + 4) / 5
    &&& forall|i: int|
        0 <= i < base32_text(data).len() ==> is_base32_char(#[trigger] base32_text(data)[i])
}

/// A faithful base32 text holds no slash, and is empty only for no bytes.
pub proof fn lemma_base32_token(data: Seq<u8>)
    requires
        base32_faithful(data),
    ensures
        free_of(base32_text(data), '/'),
        data.len() > 0 ==> base32_text(data).len() > 0,
{
    assert forall|i: int| 0 <= i < base32_text(data).len() implies base32_text(data)[i]
        != '/' by {
        assert(is_base32_char(base32_text(data)[i]));
    }
}

/// `base32::encode` with `Alphabet::Rfc4648 { padding: false }`. The
/// contract gives the result a name and claims three things of it, which the
/// crate's source shows: the crate writes eight characters of the alphabet
/// for each five bytes and cuts the last group to the characters that hold
/// data, and its `decode` undoes `encode`.
#[verifier::external_body]
pub(crate) fn base32_encode(data: &[u8]) -> (r: String)
    ensures
        r@ == base32_text(data@),
        base32_bytes(r@) == Some(data@),
        r@.len() == (data@.len() * 8 + 4) / 5,
        forall|i: int| 0 <= i < r@.len() ==> is_base32_char(#[trigger] r@[i]),
{
    base32::encode(base32::Alphabet::Rfc4648 { padding: false }, data)
}

/// `base32::decode` with `Alphabet::Rfc4648 { padding: false }`. The
/// contract gives the result a name and claims no more of it.
#[verifier::external_body]
pub(crate) fn base32_decode(text: &str) -> (r: Option<Vec<u8>>)
    ensures
        match r {
            Some(v) => base32_bytes(text@) == Some(v@),
            None => base32_bytes(text@) is None,
        },
{
    base32::decode(base32::Alphabet::Rfc4648 { padding: false }, text)
}

/// `Engine::encode` of `base64::engine::general_purpose::URL_SAFE_NO_PAD`.
/// The contract gives the result a name and claims no more of it.
#[verifier::external_body]
pub(crate) fn base64url_encode(data: &[u8]) -> (r: String)
    ensures
        r@ == base64url_text(data@),
{
    base64::Engine::encode(&base64::engine::general_purpose::URL_SAFE_NO_PAD, data)
}

} // verus!
