//! IPv6 addresses and their text, with `::` for a run of zero groups.

use crate::error::{ErrorView, StackAddrError};
use crate::ip::v4::{lemma_octet_text, Ipv4Addr};
use crate::numeral::{
    append_hex, bounded_hex, dec_text, hex_digit, hex_text, lemma_digits_free, lemma_hex_text,
    read_hex,
};
use crate::text::{
    chars_of, doubled_at, free_of, join, lemma_join_ends, lemma_join_free, lemma_join_push,
    lemma_join_single, lemma_split_join, solid, split, split_spans, Span,
};
use vstd::prelude::*;
use vstd::string::*;

verus! {

/// An IPv6 address: eight groups of sixteen bits, most significant first.
#[derive(Clone, Copy, Debug, PartialEq, Eq, Structural, PartialOrd, Ord, Hash)]
pub struct Ipv6Addr(pub u16, pub u16, pub u16, pub u16, pub u16, pub u16, pub u16, pub u16);

/// The group that the field `p` writes: one to four hexadecimal digits.
pub open spec fn hex_group(p: Seq<char>) -> Option<u16> {
    if 1 <= p.len() <= 4 && bounded_hex(p, 0xFFFF) is Some {
        Some(bounded_hex(p, 0xFFFF).unwrap() as u16)
    } else {
        None
    }
}

/// The groups that the fields `p` write, if each of them is a group.
pub open spec fn hex_groups(p: Seq<Seq<char>>) -> Option<Seq<u16>> {
    if forall|i: int| 0 <= i < p.len() ==> hex_group(#[trigger] p[i]) is Some {
        Some(Seq::new(p.len(), |i: int| hex_group(p[i]).unwrap()))
    } else {
        None
    }
}

/// The two groups that hold the four octets of `q`.
pub open spec fn quad_groups(q: Ipv4Addr) -> Seq<u16> {
    seq![(q.0 * 256 + q.1) as u16, (q.2 * 256 + q.3) as u16]
}

/// The groups that a colon-separated list writes. Every field is a group of
/// one to four hexadecimal digits; where `quad` allows it the last field may
/// instead be a dotted quad, which stands for two groups.
pub open spec fn listed_groups(t: Seq<char>, quad: bool) -> Option<Seq<u16>> {
    let p = split(t, ':');
    if hex_groups(p) is Some {
        hex_groups(p)
    } else if quad && p.len() > 0 && hex_groups(p.drop_last()) is Some && Ipv4Addr::from_text(
        p.last(),
    ) is Some {
        Some(hex_groups(p.drop_last()).unwrap() + quad_groups(Ipv4Addr::from_text(p.last()).unwrap()))
    } else {
        None
    }
}

/// The index of the first `::` in `t`, or `t.len()` when `t` holds none.
pub open spec fn double_colon(t: Seq<char>) -> int
    decreases t.len(),
{
    if t.len() < 2 {
        t.len() as int
    } else if t[0] == ':' && t[1] == ':' {
        0
    } else {
        1 + double_colon(t.skip(1))
    }
}

/// `n` groups of zero.
pub open spec fn zero_groups(n: int) -> Seq<u16> {
    Seq::new(n as nat, |i: int| 0u16)
}

/// How many groups of zero stand in a row in `g` from index `i` on.
pub open spec fn zeros_from(g: Seq<u16>, i: int) -> nat
    decreases g.len() - i,
{
    if 0 <= i < g.len() && g[i] == 0 {
        1 + zeros_from(g, i + 1)
    } else {
        0
    }
}

/// Among the indices below `n`, the first at which the longest run of zero
/// groups of `g` starts.
pub open spec fn longest_zeros(g: Seq<u16>, n: int) -> int
    decreases n,
{
    if n <= 1 {
        0
    } else {
        let b = longest_zeros(g, n - 1);
        if zeros_from(g, n - 1) > zeros_from(g, b) {
            n - 1
        } else {
            b
        }
    }
}

/// The shortest lower-case hexadecimal numerals of the groups `g`.
pub open spec fn hex_parts(g: Seq<u16>) -> Seq<Seq<char>> {
    Seq::new(g.len(), |i: int| hex_text(g[i] as nat))
}

/// The groups `g` as shortest lower-case hexadecimal numerals with a colon
/// between neighbours.
pub open spec fn hex_list(g: Seq<u16>) -> Seq<char> {
    join(hex_parts(g), ':')
}

impl Ipv6Addr {
    /// The eight groups of the address.
    pub open spec fn groups(self) -> Seq<u16> {
        seq![self.0, self.1, self.2, self.3, self.4, self.5, self.6, self.7]
    }

    /// The address with the eight groups `g`.
    pub open spec fn of_groups(g: Seq<u16>) -> Ipv6Addr {
        Ipv6Addr(g[0], g[1], g[2], g[3], g[4], g[5], g[6], g[7])
    }

    /// The address that `t` writes. Without `::` it is a list of eight
    /// groups. With `::`, the lists before and after the first one hold at
    /// most seven groups together, either may be empty, and groups of zero fill
    /// the gap. A dotted quad may end the whole, never the list before `::`.
    pub open spec fn from_text(t: Seq<char>) -> Option<Ipv6Addr> {
        let k = double_colon(t);
        if k >= t.len() {
            match listed_groups(t, true) {
                Some(g) => if g.len() == 8 {
                    Some(Ipv6Addr::of_groups(g))
                } else {
                    None
                },
                None => None,
            }
        } else {
            let head = if k == 0 {
                Some(Seq::<u16>::empty())
            } else {
                listed_groups(t.take(k), false)
            };
            let tail = if k + 2 == t.len() {
                Some(Seq::<u16>::empty())
            } else {
                listed_groups(t.skip(k + 2), true)
            };
            match (head, tail) {
                (Some(h), Some(l)) => if h.len() + l.len() <= 7 {
                    Some(Ipv6Addr::of_groups(h + zero_groups(8 - h.len() - l.len()) + l))
                } else {
                    None
                },
                _ => None,
            }
        }
    }

    /// Whether the address holds an IPv4 address behind `::ffff:`.
    pub open spec fn is_mapped(self) -> bool {
        self.0 == 0 && self.1 == 0 && self.2 == 0 && self.3 == 0 && self.4 == 0 && self.5
            == 0xffff
    }

    /// The IPv4 address in the last two groups.
    pub open spec fn low_quad(self) -> Ipv4Addr {
        Ipv4Addr((self.6 / 256) as u8, (self.6 % 256) as u8, (self.7 / 256) as u8, (self.7
            % 256) as u8)
    }

    /// The canonical text of the address. A mapped IPv4 address is written
    /// as `::ffff:` and a dotted quad. Otherwise the first longest run of two
    /// or more zero groups is written as `::`, and the other groups as
    /// shortest lower-case hexadecimal numerals.
    pub open spec fn text(self) -> Seq<char> {
        let g = self.groups();
        if self.is_mapped() {
            "::ffff:"@ + self.low_quad().text()
        } else {
            let s = longest_zeros(g, 8);
            let n = zeros_from(g, s);
            if n > 1 {
                hex_list(g.take(s)) + "::"@ + hex_list(g.skip(s + n))
            } else {
                hex_list(g)
            }
        }
    }

    /// The address with the eight groups.
    pub fn new(a: u16, b: u16, c: u16, d: u16, e: u16, f: u16, g: u16, h: u16) -> (r: Ipv6Addr)
        ensures
            r == Ipv6Addr(a, b, c, d, e, f, g, h),
    {
        Ipv6Addr(a, b, c, d, e, f, g, h)
    }

    /// The eight groups of the address.
    pub fn segments(&self) -> (r: [u16; 8])
        ensures
            r@ == self.groups(),
    {
        let r = [self.0, self.1, self.2, self.3, self.4, self.5, self.6, self.7];
        assert(r@ =~= self.groups());
        r
    }

    /// Reads the span `sp` of `chars` as an IPv6 address.
    pub(crate) fn read(chars: &Vec<char>, sp: Span) -> (r: Option<Ipv6Addr>)
        requires
            sp.within(chars@),
        ensures
            r == Ipv6Addr::from_text(sp.of(chars@)),
    {
        let ghost t = sp.of(chars@);
        let k = find_double_colon(chars, sp);
        proof {
            lemma_double_colon(t);
        }
        if k == sp.end {
            match read_groups(chars, sp, true) {
                Some(g) => {
                    if g.len() == 8 {
                        Some(Ipv6Addr(g[0], g[1], g[2], g[3], g[4], g[5], g[6], g[7]))
                    } else {
                        None
                    }
                },
                None => None,
            }
        } else {
            let head = if k == sp.start {
                Some(Vec::new())
            } else {
                let before = Span { start: sp.start, end: k };
                assert(before.of(chars@) =~= t.take(k - sp.start));
                read_groups(chars, before, false)
            };
            let tail = if k + 2 == sp.end {
                Some(Vec::new())
            } else {
                let after = Span { start: k + 2, end: sp.end };
                assert(after.of(chars@) =~= t.skip(k + 2 - sp.start));
                read_groups(chars, after, true)
            };
            match (head, tail) {
                (Some(h), Some(l)) => {
                    if h.len() <= 7 && l.len() <= 7 - h.len() {
                        Some(
                            Ipv6Addr(
                                padded_group(&h, &l, 0),
                                padded_group(&h, &l, 1),
                                padded_group(&h, &l, 2),
                                padded_group(&h, &l, 3),
                                padded_group(&h, &l, 4),
                                padded_group(&h, &l, 5),
                                padded_group(&h, &l, 6),
                                padded_group(&h, &l, 7),
                            ),
                        )
                    } else {
                        None
                    }
                },
                _ => None,
            }
        }
    }

    /// Parses an address such as `2001:db8::1` or `::ffff:10.0.0.1`.
    pub fn parse(s: &str) -> (r: Option<Ipv6Addr>)
        ensures
            r == Ipv6Addr::from_text(s@),
    {
        let chars = chars_of(s);
        let sp = Span { start: 0, end: chars.len() };
        assert(sp.of(chars@) =~= s@);
        Ipv6Addr::read(&chars, sp)
    }

    /// Appends the canonical text of the address to `out`.
    pub fn append_to(&self, out: &mut String)
        ensures
            final(out)@ == old(out)@ + self.text(),
    {
        let g = self.segments();
        if self.0 == 0 && self.1 == 0 && self.2 == 0 && self.3 == 0 && self.4 == 0 && self.5
            == 0xffff {
            let quad = Ipv4Addr(
                (self.6 / 256) as u8,
                (self.6 % 256) as u8,
                (self.7 / 256) as u8,
                (self.7 % 256) as u8,
            );
            out.append("::ffff:");
            quad.append_to(out);
            assert(final(out)@ =~= old(out)@ + self.text());
        } else {
            let (start, len) = longest_zero_run(&g);
            if len > 1 {
                append_hex_list(out, &g, 0, start);
                out.append("::");
                append_hex_list(out, &g, start + len, 8);
                proof {
                    assert(g@.subrange(0, start as int) =~= g@.take(start as int));
                    assert(g@.subrange(start + len, 8) =~= g@.skip(start + len));
                    assert(final(out)@ =~= old(out)@ + self.text());
                }
            } else {
                append_hex_list(out, &g, 0, 8);
                proof {
                    assert(g@.subrange(0, 8) =~= g@);
                }
            }
        }
    }

    /// The canonical text of the address.
    pub fn to_string(&self) -> (r: String)
        ensures
            r@ == self.text(),
    {
        let mut out = String::new();
        self.append_to(&mut out);
        assert(out@ =~= self.text());
        out
    }

    /// Reading the text of an address gives the address back, and the text
    /// is one token.
    pub proof fn lemma_text_round_trip(self)
        ensures
            Ipv6Addr::from_text(self.text()) == Some(self),
            free_of(self.text(), '/'),
            self.text().len() > 0,
    {
        let g = self.groups();
        if self.is_mapped() {
            lemma_mapped_text(self);
        } else {
            let s = longest_zeros(g, 8);
            let n = zeros_from(g, s) as int;
            lemma_longest_zeros(g, 8);
            lemma_zero_run(g, s);
            if n > 1 {
                lemma_compressed_text(g, s, n);
                reveal_strlit("::");
            } else {
                lemma_no_double_colon(g);
                lemma_hex_list(g, true);
            }
        }
    }
}

impl std::str::FromStr for Ipv6Addr {
    type Err = StackAddrError;

    /// Parses an IPv6 address; a text that writes none gives the address
    /// error.
    fn from_str(s: &str) -> (r: Result<Self, Self::Err>)
        ensures
            match Ipv6Addr::from_text(s@) {
                Some(a) => r matches Ok(x) && x == a,
                None => r matches Err(e) && e@ == ErrorView::InvalidAddress,
            },
    {
        match Ipv6Addr::parse(s) {
            Some(a) => Ok(a),
            None => Err(StackAddrError::InvalidAddress),
        }
    }
}

/// Reads the span `sp` of `chars` as a colon-separated list of groups.
pub(crate) fn read_groups(chars: &Vec<char>, sp: Span, quad: bool) -> (r: Option<Vec<u16>>)
    requires
        sp.within(chars@),
    ensures
        r is Some == listed_groups(sp.of(chars@), quad) is Some,
        r matches Some(v) ==> v@ == listed_groups(sp.of(chars@), quad).unwrap(),
{
    let fields = split_spans(chars, sp, ':');
    let ghost p = split(sp.of(chars@), ':');
    let n = fields.len();
    let mut out: Vec<u16> = Vec::new();
    let mut i: usize = 0;
    while i < n
        invariant
            n == fields@.len(),
            n == p.len(),
            p == split(sp.of(chars@), ':'),
            i <= n,
            forall|k: int|
                0 <= k < n ==> (#[trigger] fields@[k]).within(chars@) && fields@[k].of(chars@)
                    == p[k],
            hex_groups(p.take(i as int)) == Some(out@),
        decreases n - i,
    {
        let f = fields[i];
        let ghost before = p.take(i as int);
        let ghost after = p.take(i + 1);
        let width = f.end - f.start;
        let g = if 1 <= width && width <= 4 {
            read_hex(chars, f, 0xFFFF)
        } else {
            None
        };
        assert(f.of(chars@) == p[i as int]);
        assert(g is Some == hex_group(p[i as int]) is Some);
        match g {
            Some(v) => {
                out.push(v as u16);
                proof {
                    assert forall|k: int| 0 <= k < after.len() implies hex_group(
                        #[trigger] after[k],
                    ) is Some by {
                        if k < i {
                            assert(after[k] == before[k]);
                        }
                    }
                    assert(out@ =~= hex_groups(after).unwrap());
                }
            },
            None => {
                proof {
                    assert(hex_group(p[i as int]) is None);
                    assert(hex_groups(p) is None);
                    if i + 1 < n {
                        assert(p.drop_last()[i as int] == p[i as int]);
                        assert(hex_groups(p.drop_last()) is None);
                    } else {
                        assert(p.drop_last() =~= before);
                    }
                }
                if quad && i + 1 == n {
                    match Ipv4Addr::read(chars, f) {
                        Some(q) => {
                            out.push((q.0 as u16) * 256 + (q.1 as u16));
                            out.push((q.2 as u16) * 256 + (q.3 as u16));
                            assert(out@ =~= hex_groups(p.drop_last()).unwrap() + quad_groups(q));
                            return Some(out);
                        },
                        None => {
                            return None;
                        },
                    }
                }
                return None;
            },
        }
        i += 1;
    }
    proof {
        assert(p.take(n as int) =~= p);
    }
    Some(out)
}

/// The first index in the span `sp` of `chars` at which `::` stands, or the
/// end of the span.
pub(crate) fn find_double_colon(chars: &Vec<char>, sp: Span) -> (k: usize)
    requires
        sp.within(chars@),
    ensures
        sp.start <= k <= sp.end,
        k == sp.start + double_colon(sp.of(chars@)),
{
    let ghost t = sp.of(chars@);
    let mut k: usize = sp.start;
    while k < sp.end
        invariant
            sp.within(chars@),
            t == sp.of(chars@),
            sp.start <= k <= sp.end,
            forall|j: int| 0 <= j < k - sp.start ==> !#[trigger] doubled_at(t, ':', j),
        decreases sp.end - k,
    {
        if k + 1 < sp.end && chars[k] == ':' && chars[k + 1] == ':' {
            proof {
                assert(t[k - sp.start] == ':');
                assert(t[k - sp.start + 1] == ':');
                assert(doubled_at(t, ':', k - sp.start));
                lemma_double_colon_is(t, k - sp.start);
            }
            return k;
        }
        proof {
            if k + 1 < sp.end {
                assert(t[k - sp.start] == chars@[k as int]);
                assert(t[k - sp.start + 1] == chars@[k + 1]);
            }
            assert(!doubled_at(t, ':', k - sp.start));
        }
        k += 1;
    }
    proof {
        lemma_double_colon_is(t, t.len() as int);
    }
    k
}

/// What stands at index `i` of `head`, then zero groups, then `tail`, eight
/// groups in all.
fn padded_group(head: &Vec<u16>, tail: &Vec<u16>, i: usize) -> (r: u16)
    requires
        head.len() + tail.len() <= 8,
        i < 8,
    ensures
        r == (head@ + zero_groups(8 - head.len() - tail.len()) + tail@)[i as int],
{
    if i < head.len() {
        head[i]
    } else if i >= 8 - tail.len() {
        tail[i - (8 - tail.len())]
    } else {
        0
    }
}

/// How many zero groups stand in a row in `g` from index `i` on.
fn zero_run(g: &[u16; 8], i: usize) -> (n: usize)
    requires
        i <= 8,
    ensures
        n == zeros_from(g@, i as int),
        i + n <= 8,
{
    let mut j: usize = i;
    while j < 8 && g[j] == 0
        invariant
            i <= j <= 8,
            zeros_from(g@, i as int) == (j - i) + zeros_from(g@, j as int),
        decreases 8 - j,
    {
        j += 1;
    }
    j - i
}

/// Where the first longest run of zero groups of `g` starts, and its length.
fn longest_zero_run(g: &[u16; 8]) -> (r: (usize, usize))
    ensures
        r.0 == longest_zeros(g@, 8),
        r.1 == zeros_from(g@, r.0 as int),
        r.0 + r.1 <= 8,
{
    let mut best: usize = 0;
    let mut len: usize = zero_run(g, 0);
    let mut n: usize = 1;
    while n < 8
        invariant
            1 <= n <= 8,
            best < n,
            best == longest_zeros(g@, n as int),
            len == zeros_from(g@, best as int),
            best + len <= 8,
        decreases 8 - n,
    {
        let here = zero_run(g, n);
        if here > len {
            best = n;
            len = here;
        }
        n += 1;
    }
    (best, len)
}

/// Appends the groups of `g` from `lo` up to `hi` as a colon-separated list
/// of hexadecimal numerals.
fn append_hex_list(out: &mut String, g: &[u16; 8], lo: usize, hi: usize)
    requires
        lo <= hi <= 8,
    ensures
        final(out)@ == old(out)@ + hex_list(g@.subrange(lo as int, hi as int)),
{
    let ghost sub = g@.subrange(lo as int, hi as int);
    let ghost parts = hex_parts(sub);
    let mut i: usize = lo;
    proof {
        reveal_strlit(":");
        assert(parts.take(0) =~= Seq::<Seq<char>>::empty());
        assert(out@ =~= old(out)@ + join(parts.take(0), ':'));
    }
    while i < hi
        invariant
            lo <= i <= hi <= 8,
            sub == g@.subrange(lo as int, hi as int),
            parts == hex_parts(sub),
            out@ == old(out)@ + join(parts.take(i - lo), ':'),
        decreases hi - i,
    {
        proof {
            reveal_strlit(":");
            lemma_join_push(parts.take(i - lo), parts[i - lo], ':');
            assert(parts.take(i - lo).push(parts[i - lo]) =~= parts.take(i - lo + 1));
            assert(parts[i - lo] == hex_text(g@[i as int] as nat));
        }
        let ghost before = out@;
        if i > lo {
            out.append(":");
        }
        append_hex(out, g[i] as u32);
        proof {
            assert(out@ =~= old(out)@ + join(parts.take(i - lo + 1), ':'));
        }
        i += 1;
    }
    proof {
        assert(parts.take(hi - lo) =~= parts);
    }
}

/// `double_colon` is within the text, and where it finds `::` both colons
/// are within the text.
pub proof fn lemma_double_colon(t: Seq<char>)
    ensures
        0 <= double_colon(t) <= t.len(),
        double_colon(t) < t.len() ==> double_colon(t) + 2 <= t.len(),
    decreases t.len(),
{
    if t.len() >= 2 && !(t[0] == ':' && t[1] == ':') {
        lemma_double_colon(t.skip(1));
    }
}

/// `double_colon` is the only index with `::` at it, or the end, and none
/// before it.
pub proof fn lemma_double_colon_is(t: Seq<char>, k: int)
    requires
        0 <= k <= t.len(),
        forall|j: int| 0 <= j < k ==> !#[trigger] doubled_at(t, ':', j),
        k < t.len() ==> doubled_at(t, ':', k),
    ensures
        double_colon(t) == k,
    decreases t.len(),
{
    if t.len() < 2 {
    } else if t[0] == ':' && t[1] == ':' {
        assert(doubled_at(t, ':', 0));
    } else {
        let u = t.skip(1);
        assert(!doubled_at(t, ':', 0));
        assert forall|j: int| 0 <= j < k - 1 implies !#[trigger] doubled_at(u, ':', j) by {
            assert(!doubled_at(t, ':', j + 1));
            if j + 1 < u.len() {
                assert(u[j] == t[j + 1]);
                assert(u[j + 1] == t[j + 2]);
            }
        }
        if k < t.len() {
            assert(u[k - 1] == t[k]);
            assert(u[k] == t[k + 1]);
            assert(doubled_at(u, ':', k - 1));
        }
        lemma_double_colon_is(u, k - 1);
    }
}

/// A run of zero groups ends within `g`, and holds nothing but zeros.
pub proof fn lemma_zero_run(g: Seq<u16>, i: int)
    requires
        0 <= i <= g.len(),
    ensures
        i + zeros_from(g, i) <= g.len(),
        forall|j: int| i <= j < i + zeros_from(g, i) ==> g[j] == 0,
    decreases g.len() - i,
{
    if i < g.len() && g[i] == 0 {
        lemma_zero_run(g, i + 1);
    }
}

/// `longest_zeros` is an index below `n`.
pub proof fn lemma_longest_zeros(g: Seq<u16>, n: int)
    requires
        n >= 1,
    ensures
        0 <= longest_zeros(g, n) < n,
    decreases n,
{
    if n > 1 {
        lemma_longest_zeros(g, n - 1);
    }
}

/// What holds of a list of hexadecimal groups: its parts are solid, it
/// holds no slash and no dot, and it reads back as the groups.
pub proof fn lemma_hex_list(g: Seq<u16>, quad: bool)
    ensures
        solid(hex_parts(g), ':'),
        free_of(hex_list(g), '/'),
        free_of(hex_list(g), '.'),
        g.len() > 0 ==> hex_list(g).len() > 0 && listed_groups(hex_list(g), quad) == Some(g),
{
    let parts = hex_parts(g);
    assert forall|k: int| 0 <= k < parts.len() implies (#[trigger] parts[k]).len() > 0 && free_of(
        parts[k],
        ':',
    ) && free_of(parts[k], '/') && free_of(parts[k], '.') && hex_group(parts[k]) == Some(g[k]) by {
        lemma_hex_text(g[k] as nat);
        lemma_digits_free(parts[k]);
    }
    lemma_join_free(parts, ':', '/');
    lemma_join_free(parts, ':', '.');
    if g.len() > 0 {
        lemma_join_ends(parts, ':');
        lemma_split_join(parts, ':');
        assert(hex_groups(parts).unwrap() =~= g);
    }
}

/// In a head, `::` and a tail, where head and tail are lists of groups or
/// empty, the first `::` stands right behind the head.
pub proof fn lemma_first_double_colon(h: Seq<u16>, l: Seq<u16>)
    ensures
        double_colon(hex_list(h) + seq![':', ':'] + hex_list(l)) == hex_list(h).len(),
{
    let hd = hex_list(h);
    let t = hd + seq![':', ':'] + hex_list(l);
    let k = hd.len() as int;
    lemma_hex_list(h, false);
    if h.len() > 0 {
        lemma_join_ends(hex_parts(h), ':');
    }
    assert forall|j: int| 0 <= j < k implies !#[trigger] doubled_at(t, ':', j) by {
        lemma_join_single(hex_parts(h), ':', j);
        assert(t[j] == hd[j]);
        if j + 1 < k {
            assert(t[j + 1] == hd[j + 1]);
        } else {
            assert(hd[j] == hd.last());
        }
    }
    assert(t[k] == ':' && t[k + 1] == ':');
    assert(doubled_at(t, ':', k));
    lemma_double_colon_is(t, k);
}

/// A list of groups holds no `::`.
pub proof fn lemma_no_double_colon(g: Seq<u16>)
    ensures
        double_colon(hex_list(g)) == hex_list(g).len(),
{
    let t = hex_list(g);
    lemma_hex_list(g, false);
    assert forall|j: int| 0 <= j < t.len() implies !#[trigger] doubled_at(t, ':', j) by {
        lemma_join_single(hex_parts(g), ':', j);
    }
    lemma_double_colon_is(t, t.len() as int);
}

/// The text of a mapped address is `::`, then `ffff`, a colon and the text
/// of its quad.
proof fn lemma_mapped_shape(a: Ipv6Addr)
    requires
        a.is_mapped(),
    ensures
        a.text() == seq![':', ':'] + join(seq![seq!['f', 'f', 'f', 'f'], a.low_quad().text()], ':'),
{
    let q = a.low_quad();
    let f = seq!['f', 'f', 'f', 'f'];
    let parts = seq![f, q.text()];
    reveal_strlit("::ffff:");
    assert(parts.skip(1) =~= seq![q.text()]);
    assert(join(parts, ':') =~= f + seq![':'] + q.text()) by {
        reveal_with_fuel(join, 2);
    }
    assert("::ffff:"@ =~= seq![':', ':'] + f + seq![':']);
    assert(a.text() =~= seq![':', ':'] + join(parts, ':'));
}

/// `ffff`, a colon and the text of `q` read as the group `ffff` and the two
/// groups of `q`.
proof fn lemma_mapped_tail(q: Ipv4Addr)
    ensures
        listed_groups(join(seq![seq!['f', 'f', 'f', 'f'], q.text()], ':'), true) == Some(
            seq![0xffffu16] + quad_groups(q),
        ),
        free_of(join(seq![seq!['f', 'f', 'f', 'f'], q.text()], ':'), '/'),
        join(seq![seq!['f', 'f', 'f', 'f'], q.text()], ':').len() > 0,
{
    let f = seq!['f', 'f', 'f', 'f'];
    let parts = seq![f, q.text()];
    q.lemma_text_round_trip();
    assert forall|k: int| 0 <= k < parts.len() implies free_of(#[trigger] parts[k], ':')
        && free_of(parts[k], '/') by {}
    lemma_split_join(parts, ':');
    lemma_join_free(parts, ':', '/');
    assert(join(parts, ':').len() > 0) by {
        reveal_with_fuel(join, 2);
    }
    let d = dec_text(q.0 as nat);
    lemma_octet_text(q.0);
    assert(q.text()[d.len() as int] == '.') by {
        reveal_with_fuel(join, 2);
    }
    assert(hex_digit(q.text()[d.len() as int]) is None);
    assert(hex_group(parts[1]) is None);
    assert(hex_groups(parts) is None);
    assert(f =~= hex_text(0xffff)) by {
        reveal_with_fuel(hex_text, 4);
    }
    lemma_hex_text(0xffff);
    assert(hex_group(f) == Some(0xffffu16));
    assert(parts.drop_last() =~= seq![f]);
    assert(parts.last() == q.text());
    assert(hex_groups(seq![f]).unwrap() =~= seq![0xffffu16]);
}

/// The text of a mapped address reads back as the address.
proof fn lemma_mapped_text(a: Ipv6Addr)
    requires
        a.is_mapped(),
    ensures
        Ipv6Addr::from_text(a.text()) == Some(a),
        free_of(a.text(), '/'),
        a.text().len() > 0,
{
    let g = a.groups();
    let t = a.text();
    let q = a.low_quad();
    let tail = join(seq![seq!['f', 'f', 'f', 'f'], q.text()], ':');
    let l = seq![0xffffu16] + quad_groups(q);
    lemma_mapped_shape(a);
    lemma_mapped_tail(q);
    assert(t[0] == ':' && t[1] == ':');
    assert(double_colon(t) == 0);
    assert(t.skip(2) =~= tail);
    assert(tail.len() > 0);
    assert(listed_groups(t.skip(2), true) == Some(l));
    assert(l.len() == 3);
    assert(Seq::<u16>::empty() + zero_groups(8 - 0 - 3) + l =~= g);
    assert(Ipv6Addr::of_groups(g) == a);
}

/// The text with `::` for the zero groups from `s` to `s + n` reads back as
/// the groups.
proof fn lemma_compressed_text(g: Seq<u16>, s: int, n: int)
    requires
        g.len() == 8,
        0 <= s,
        n > 1,
        s + n <= 8,
        forall|j: int| s <= j < s + n ==> g[j] == 0,
    ensures
        Ipv6Addr::from_text(hex_list(g.take(s)) + "::"@ + hex_list(g.skip(s + n))) == Some(
            Ipv6Addr::of_groups(g),
        ),
        free_of(hex_list(g.take(s)) + "::"@ + hex_list(g.skip(s + n)), '/'),
{
    let h = g.take(s);
    let l = g.skip(s + n);
    let t = hex_list(h) + "::"@ + hex_list(l);
    reveal_strlit("::");
    assert("::"@ =~= seq![':', ':']);
    lemma_first_double_colon(h, l);
    lemma_hex_list(h, false);
    lemma_hex_list(l, true);
    let k = hex_list(h).len() as int;
    assert(double_colon(t) == k);
    assert(t.take(k) =~= hex_list(h));
    assert(t.skip(k + 2) =~= hex_list(l));
    if s == 0 {
        assert(hex_parts(h) =~= Seq::<Seq<char>>::empty());
        assert(k == 0);
    } else {
        assert(k > 0);
    }
    if s + n == 8 {
        assert(hex_parts(l) =~= Seq::<Seq<char>>::empty());
        assert(k + 2 == t.len());
    } else {
        assert(k + 2 < t.len());
    }
    assert(h + zero_groups(8 - h.len() - l.len()) + l =~= g);
    assert(free_of(t, '/'));
}

} // verus!
