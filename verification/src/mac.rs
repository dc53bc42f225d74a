//! Hardware (EUI-48) addresses.

use crate::error::{ErrorView, StackAddrError};
use crate::numeral::{bounded_hex, hex_pair, hex_value, lemma_digit_char};
use crate::text::{free_of, join, lemma_join_free, lemma_split_join, split};
use vstd::prelude::*;

verus! {

/// A 48-bit hardware address: six octets in transmission order.
#[derive(Clone, Copy, Debug, PartialEq, Eq, Structural, PartialOrd, Ord, Hash, Default)]
pub struct MacAddr(pub u8, pub u8, pub u8, pub u8, pub u8, pub u8);

/// The octet that one field of a hardware address writes: hexadecimal digits
/// of either case, with an optional `+` before them, worth at most 255.
pub open spec fn hex_octet(f: Seq<char>) -> Option<u8> {
    let digits = if f.len() > 0 && f[0] == '+' {
        f.skip(1)
    } else {
        f
    };
    match bounded_hex(digits, 255) {
        Some(v) => Some(v as u8),
        None => None,
    }
}

impl MacAddr {
    /// The text of the address: six pairs of lower-case hexadecimal digits
    /// with a colon between neighbours.
    pub open spec fn text(self) -> Seq<char> {
        join(
            seq![
                hex_pair(self.0),
                hex_pair(self.1),
                hex_pair(self.2),
                hex_pair(self.3),
                hex_pair(self.4),
                hex_pair(self.5),
            ],
            ':',
        )
    }

    /// The address that `t` writes: exactly six colon-separated fields, each
    /// an octet.
    pub open spec fn from_text(t: Seq<char>) -> Option<MacAddr> {
        let p = split(t, ':');
        if p.len() == 6 && hex_octet(p[0]) is Some && hex_octet(p[1]) is Some && hex_octet(p[2])
            is Some && hex_octet(p[3]) is Some && hex_octet(p[4]) is Some && hex_octet(p[5])
            is Some {
            Some(
                MacAddr(
                    hex_octet(p[0]).unwrap(),
                    hex_octet(p[1]).unwrap(),
                    hex_octet(p[2]).unwrap(),
                    hex_octet(p[3]).unwrap(),
                    hex_octet(p[4]).unwrap(),
                    hex_octet(p[5]).unwrap(),
                ),
            )
        } else {
            None
        }
    }

    /// The address with the six octets.
    pub fn new(a: u8, b: u8, c: u8, d: u8, e: u8, f: u8) -> (r: MacAddr)
        ensures
            r == MacAddr(a, b, c, d, e, f),
    {
        MacAddr(a, b, c, d, e, f)
    }

    /// The six octets of the address.
    pub fn octets(&self) -> (r: [u8; 6])
        ensures
            r@ == seq![self.0, self.1, self.2, self.3, self.4, self.5],
    {
        let r = [self.0, self.1, self.2, self.3, self.4, self.5];
        assert(r@ =~= seq![self.0, self.1, self.2, self.3, self.4, self.5]);
        r
    }

    /// Parses an address such as `aa:bb:cc:dd:ee:ff`.
    pub fn parse(s: &str) -> (r: Option<MacAddr>)
        ensures
            r == MacAddr::from_text(s@),
    {
        mac_from_str(s)
    }

    /// The text of the address.
    pub fn to_string(&self) -> (r: String)
        ensures
            r@ == self.text(),
    {
        mac_to_string(*self)
    }

    /// Reading the text of an address gives the address back, and the text
    /// is one token.
    pub proof fn lemma_text_round_trip(self)
        ensures
            MacAddr::from_text(self.text()) == Some(self),
            free_of(self.text(), '/'),
            self.text().len() > 0,
    {
        let parts = seq![
            hex_pair(self.0),
            hex_pair(self.1),
            hex_pair(self.2),
            hex_pair(self.3),
            hex_pair(self.4),
            hex_pair(self.5),
        ];
        lemma_hex_pair(self.0);
        lemma_hex_pair(self.1);
        lemma_hex_pair(self.2);
        lemma_hex_pair(self.3);
        lemma_hex_pair(self.4);
        lemma_hex_pair(self.5);
        lemma_split_join(parts, ':');
        lemma_join_free(parts, ':', '/');
        reveal_with_fuel(join, 2);
    }
}

/// What holds of the two digits of an octet.
pub proof fn lemma_hex_pair(b: u8)
    ensures
        hex_octet(hex_pair(b)) == Some(b),
        free_of(hex_pair(b), ':'),
        free_of(hex_pair(b), '/'),
        hex_pair(b).len() == 2,
{
    let t = hex_pair(b);
    lemma_digit_char((b / 16) as nat);
    lemma_digit_char((b % 16) as nat);
    assert(t.drop_last() =~= seq![t[0]]);
    assert(t.drop_last().drop_last() =~= Seq::<char>::empty());
    reveal_with_fuel(hex_value, 3);
}

/// `FromStr` of `mac_addr::MacAddr`. The crate splits the text at each colon,
/// wants six fields, and reads each field with `u8::from_str_radix(_, 16)`,
/// which takes an optional `+` and then hexadecimal digits of either case; the
/// contract states that grammar.
#[verifier::external_body]
fn mac_from_str(s: &str) -> (r: Option<MacAddr>)
    ensures
        r == MacAddr::from_text(s@),
{
    match s.parse::<mac_addr::MacAddr>() {
        Ok(m) => Some(MacAddr(m.0, m.1, m.2, m.3, m.4, m.5)),
        Err(_) => None,
    }
}

/// `Display` of `mac_addr::MacAddr`, which writes each octet as two
/// lower-case hexadecimal digits and puts colons between them.
#[verifier::external_body]
fn mac_to_string(m: MacAddr) -> (r: String)
    ensures
        r@ == m.text(),
{
    mac_addr::MacAddr::new(m.0, m.1, m.2, m.3, m.4, m.5).to_string()
}

impl std::str::FromStr for MacAddr {
    type Err = StackAddrError;

    /// Parses an address such as `aa:bb:cc:dd:ee:ff`; a text that writes
    /// none gives the encoding error of a hardware address.
    fn from_str(s: &str) -> (r: Result<Self, Self::Err>)
        ensures
            match MacAddr::from_text(s@) {
                Some(m) => r matches Ok(a) && a == m,
                None => r matches Err(e) && e@ == ErrorView::InvalidEncoding("mac"@),
            },
    {
        match MacAddr::parse(s) {
            Some(m) => Ok(m),
            None => Err(StackAddrError::InvalidEncoding("mac")),
        }
    }
}

} // verus!
