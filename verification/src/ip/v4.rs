//! IPv4 addresses and their dotted-quad text.

use crate::error::{ErrorView, StackAddrError};
use crate::numeral::{
    append_dec, dec_text, lemma_dec_is_hex, lemma_dec_text, lemma_digits_free, plain_dec, read_dec,
};
use crate::text::{
    chars_of, free_of, join, lemma_join_free, lemma_split_join, split, split_spans, Span,
};
use vstd::prelude::*;
use vstd::string::*;

verus! {

/// An IPv4 address: four octets, most significant first.
#[derive(Clone, Copy, Debug, PartialEq, Eq, Structural, PartialOrd, Ord, Hash)]
pub struct Ipv4Addr(pub u8, pub u8, pub u8, pub u8);

impl Ipv4Addr {
    /// The dotted-quad text of the address: four shortest decimal numerals
    /// with a dot between neighbours.
    pub open spec fn text(self) -> Seq<char> {
        join(
            seq![
                dec_text(self.0 as nat),
                dec_text(self.1 as nat),
                dec_text(self.2 as nat),
                dec_text(self.3 as nat),
            ],
            '.',
        )
    }

    /// The address that `t` writes: exactly four dot-separated decimal
    /// numerals, each without leading zeros and at most 255.
    pub open spec fn from_text(t: Seq<char>) -> Option<Ipv4Addr> {
        let p = split(t, '.');
        if p.len() == 4 && plain_dec(p[0], 255) is Some && plain_dec(p[1], 255) is Some
            && plain_dec(p[2], 255) is Some && plain_dec(p[3], 255) is Some {
            Some(
                Ipv4Addr(
                    plain_dec(p[0], 255).unwrap() as u8,
                    plain_dec(p[1], 255).unwrap() as u8,
                    plain_dec(p[2], 255).unwrap() as u8,
                    plain_dec(p[3], 255).unwrap() as u8,
                ),
            )
        } else {
            None
        }
    }

    /// The address with the four octets.
    pub fn new(a: u8, b: u8, c: u8, d: u8) -> (r: Ipv4Addr)
        ensures
            r == Ipv4Addr(a, b, c, d),
    {
        Ipv4Addr(a, b, c, d)
    }

    /// The four octets of the address.
    pub fn octets(&self) -> (r: [u8; 4])
        ensures
            r@ == seq![self.0, self.1, self.2, self.3],
    {
        let r = [self.0, self.1, self.2, self.3];
        assert(r@ =~= seq![self.0, self.1, self.2, self.3]);
        r
    }

    /// Reads the span `sp` of `chars` as a dotted quad.
    pub(crate) fn read(chars: &Vec<char>, sp: Span) -> (r: Option<Ipv4Addr>)
        requires
            sp.within(chars@),
        ensures
            r == Ipv4Addr::from_text(sp.of(chars@)),
    {
        let fields = split_spans(chars, sp, '.');
        if fields.len() != 4 {
            return None;
        }
        let a = match read_plain_dec(chars, fields[0], 255) {
            Some(v) => v as u8,
            None => {
                return None;
            },
        };
        let b = match read_plain_dec(chars, fields[1], 255) {
            Some(v) => v as u8,
            None => {
                return None;
            },
        };
        let c = match read_plain_dec(chars, fields[2], 255) {
            Some(v) => v as u8,
            None => {
                return None;
            },
        };
        let d = match read_plain_dec(chars, fields[3], 255) {
            Some(v) => v as u8,
            None => {
                return None;
            },
        };
        Some(Ipv4Addr(a, b, c, d))
    }

    /// Parses a dotted quad such as `192.168.1.1`.
    pub fn parse(s: &str) -> (r: Option<Ipv4Addr>)
        ensures
            r == Ipv4Addr::from_text(s@),
    {
        let chars = chars_of(s);
        let sp = Span { start: 0, end: chars.len() };
        assert(sp.of(chars@) =~= s@);
        Ipv4Addr::read(&chars, sp)
    }

    /// Appends the dotted-quad text of the address to `out`.
    pub fn append_to(&self, out: &mut String)
        ensures
            final(out)@ == old(out)@ + self.text(),
    {
        proof {
            reveal_strlit(".");
            reveal_with_fuel(join, 4);
        }
        append_dec(out, self.0 as u32);
        out.append(".");
        append_dec(out, self.1 as u32);
        out.append(".");
        append_dec(out, self.2 as u32);
        out.append(".");
        append_dec(out, self.3 as u32);
        proof {
            let parts = seq![
                dec_text(self.0 as nat),
                dec_text(self.1 as nat),
                dec_text(self.2 as nat),
                dec_text(self.3 as nat),
            ];
            assert(parts.skip(1).skip(1) =~= seq![parts[2], parts[3]]);
            assert(parts.skip(1).skip(1).skip(1) =~= seq![parts[3]]);
            assert(final(out)@ =~= old(out)@ + self.text());
        }
    }

    /// The dotted-quad text of the address.
    pub fn to_string(&self) -> (r: String)
        ensures
            r@ == self.text(),
    {
        let mut out = String::new();
        self.append_to(&mut out);
        assert(out@ =~= self.text());
        out
    }

    /// Reading the text of an address gives the address back.
    pub proof fn lemma_text_round_trip(self)
        ensures
            Ipv4Addr::from_text(self.text()) == Some(self),
            free_of(self.text(), '/'),
            free_of(self.text(), ':'),
            self.text().len() > 0,
    {
        let parts = seq![
            dec_text(self.0 as nat),
            dec_text(self.1 as nat),
            dec_text(self.2 as nat),
            dec_text(self.3 as nat),
        ];
        lemma_octet_text(self.0);
        lemma_octet_text(self.1);
        lemma_octet_text(self.2);
        lemma_octet_text(self.3);
        lemma_split_join(parts, '.');
        lemma_join_free(parts, '.', '/');
        lemma_join_free(parts, '.', ':');
        reveal_with_fuel(join, 4);
    }
}

impl std::str::FromStr for Ipv4Addr {
    type Err = StackAddrError;

    /// Parses a dotted quad; a text that writes none gives the address
    /// error.
    fn from_str(s: &str) -> (r: Result<Self, Self::Err>)
        ensures
            match Ipv4Addr::from_text(s@) {
                Some(a) => r matches Ok(x) && x == a,
                None => r matches Err(e) && e@ == ErrorView::InvalidAddress,
            },
    {
        match Ipv4Addr::parse(s) {
            Some(a) => Ok(a),
            None => Err(StackAddrError::InvalidAddress),
        }
    }
}

/// Reads the span `sp` of `chars` as a decimal numeral without leading zeros
/// and of at most `max`.
pub(crate) fn read_plain_dec(chars: &Vec<char>, sp: Span, max: u32) -> (r: Option<u32>)
    requires
        sp.within(chars@),
        max <= 0xFFF_FFFF,
    ensures
        r is Some == plain_dec(sp.of(chars@), max as nat) is Some,
        r matches Some(v) ==> plain_dec(sp.of(chars@), max as nat) == Some(v as nat),
{
    if sp.end - sp.start > 1 && chars[sp.start] == '0' {
        assert(sp.of(chars@)[0] == '0');
        return None;
    }
    proof {
        if sp.end - sp.start > 1 {
            assert(sp.of(chars@)[0] == chars@[sp.start as int]);
        }
    }
    read_dec(chars, sp, max)
}

/// What holds of the decimal text of an octet.
pub proof fn lemma_octet_text(n: u8)
    ensures
        plain_dec(dec_text(n as nat), 255) == Some(n as nat),
        free_of(dec_text(n as nat), '.'),
        free_of(dec_text(n as nat), '/'),
        free_of(dec_text(n as nat), ':'),
        1 <= dec_text(n as nat).len() <= 3,
{
    lemma_dec_text(n as nat);
    lemma_dec_is_hex(dec_text(n as nat));
    lemma_digits_free(dec_text(n as nat));
}

} // verus!
