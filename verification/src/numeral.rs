//! Decimal and hexadecimal numerals: their digits, their values and their
//! shortest texts.

use crate::text::{free_of, Span};
use vstd::prelude::*;
use vstd::string::*;

verus! {

/// The value of a decimal digit, if `c` is one.
pub open spec fn dec_digit(c: char) -> Option<nat> {
    if c == '0' {
        Some(0)
    } else if c == '1' {
        Some(1)
    } else if c == '2' {
        Some(2)
    } else if c == '3' {
        Some(3)
    } else if c == '4' {
        Some(4)
    } else if c == '5' {
        Some(5)
    } else if c == '6' {
        Some(6)
    } else if c == '7' {
        Some(7)
    } else if c == '8' {
        Some(8)
    } else if c == '9' {
        Some(9)
    } else {
        None
    }
}

/// The value of a hexadecimal digit of either case, if `c` is one.
pub open spec fn hex_digit(c: char) -> Option<nat> {
    if dec_digit(c) is Some {
        dec_digit(c)
    } else if c == 'a' || c == 'A' {
        Some(10)
    } else if c == 'b' || c == 'B' {
        Some(11)
    } else if c == 'c' || c == 'C' {
        Some(12)
    } else if c == 'd' || c == 'D' {
        Some(13)
    } else if c == 'e' || c == 'E' {
        Some(14)
    } else if c == 'f' || c == 'F' {
        Some(15)
    } else {
        None
    }
}

/// The lower-case digit that stands for `d`, for `d` below sixteen.
pub open spec fn digit_char(d: nat) -> char {
    if d == 0 {
        '0'
    } else if d == 1 {
        '1'
    } else if d == 2 {
        '2'
    } else if d == 3 {
        '3'
    } else if d == 4 {
        '4'
    } else if d == 5 {
        '5'
    } else if d == 6 {
        '6'
    } else if d == 7 {
        '7'
    } else if d == 8 {
        '8'
    } else if d == 9 {
        '9'
    } else if d == 10 {
        'a'
    } else if d == 11 {
        'b'
    } else if d == 12 {
        'c'
    } else if d == 13 {
        'd'
    } else if d == 14 {
        'e'
    } else {
        'f'
    }
}

/// Whether `s` holds nothing but decimal digits.
pub open spec fn all_dec(s: Seq<char>) -> bool {
    forall|i: int| 0 <= i < s.len() ==> dec_digit(#[trigger] s[i]) is Some
}

/// Whether `s` holds nothing but hexadecimal digits.
pub open spec fn all_hex(s: Seq<char>) -> bool {
    forall|i: int| 0 <= i < s.len() ==> hex_digit(#[trigger] s[i]) is Some
}

/// The number that the decimal numeral `s` writes, most significant digit
/// first.
pub open spec fn dec_value(s: Seq<char>) -> nat
    decreases s.len(),
{
    if s.len() == 0 {
        0
    } else {
        dec_value(s.drop_last()) * 10 + dec_digit(s.last()).unwrap()
    }
}

/// The number that the hexadecimal numeral `s` writes.
pub open spec fn hex_value(s: Seq<char>) -> nat
    decreases s.len(),
{
    if s.len() == 0 {
        0
    } else {
        hex_value(s.drop_last()) * 16 + hex_digit(s.last()).unwrap()
    }
}

/// The shortest decimal numeral for `n`.
pub open spec fn dec_text(n: nat) -> Seq<char>
    decreases n,
{
    if n < 10 {
        seq![digit_char(n)]
    } else {
        dec_text(n / 10).push(digit_char(n % 10))
    }
}

/// The shortest lower-case hexadecimal numeral for `n`.
pub open spec fn hex_text(n: nat) -> Seq<char>
    decreases n,
{
    if n < 16 {
        seq![digit_char(n)]
    } else {
        hex_text(n / 16).push(digit_char(n % 16))
    }
}

/// A numeral that a reader of decimals without leading zeros accepts and
/// whose value is at most `max`.
pub open spec fn plain_dec(s: Seq<char>, max: nat) -> Option<nat> {
    if s.len() > 0 && all_dec(s) && (s.len() == 1 || s[0] != '0') && dec_value(s) <= max {
        Some(dec_value(s))
    } else {
        None
    }
}

/// A non-empty decimal numeral with a value of at most `max`; leading zeros
/// do not count against it.
pub open spec fn bounded_dec(s: Seq<char>, max: nat) -> Option<nat> {
    if s.len() > 0 && all_dec(s) && dec_value(s) <= max {
        Some(dec_value(s))
    } else {
        None
    }
}

/// A non-empty hexadecimal numeral with a value of at most `max`.
pub open spec fn bounded_hex(s: Seq<char>, max: nat) -> Option<nat> {
    if s.len() > 0 && all_hex(s) && hex_value(s) <= max {
        Some(hex_value(s))
    } else {
        None
    }
}

/// The two lower-case hexadecimal digits of the byte `b`.
pub open spec fn hex_pair(b: u8) -> Seq<char> {
    seq![digit_char((b / 16) as nat), digit_char((b % 16) as nat)]
}

/// The bytes `data` as lower-case hexadecimal digits, two for each byte and
/// nothing between them.
pub open spec fn hex_pairs(data: Seq<u8>) -> Seq<char> {
    Seq::new(
        2 * data.len(),
        |i: int|
            if i % 2 == 0 {
                digit_char((data[i / 2] / 16) as nat)
            } else {
                digit_char((data[i / 2] % 16) as nat)
            },
    )
}

/// The bytes that an even number of hexadecimal digits of either case write,
/// two digits for each byte.
pub open spec fn paired_bytes(t: Seq<char>) -> Option<Seq<u8>> {
    if t.len() % 2 == 0 && all_hex(t) {
        Some(
            Seq::new(
                t.len() / 2,
                |i: int| (hex_digit(t[2 * i]).unwrap() * 16 + hex_digit(t[2 * i + 1]).unwrap()) as u8,
            ),
        )
    } else {
        None
    }
}

/// The value of the decimal digit `c`, if it is one.
pub(crate) fn dec_digit_of(c: char) -> (r: Option<u32>)
    ensures
        r is Some == dec_digit(c) is Some,
        r matches Some(d) ==> dec_digit(c) == Some(d as nat) && d < 10,
{
    match c {
        '0' => Some(0),
        '1' => Some(1),
        '2' => Some(2),
        '3' => Some(3),
        '4' => Some(4),
        '5' => Some(5),
        '6' => Some(6),
        '7' => Some(7),
        '8' => Some(8),
        '9' => Some(9),
        _ => None,
    }
}

/// The value of the hexadecimal digit `c`, if it is one.
pub(crate) fn hex_digit_of(c: char) -> (r: Option<u32>)
    ensures
        r is Some == hex_digit(c) is Some,
        r matches Some(d) ==> hex_digit(c) == Some(d as nat) && d < 16,
{
    match c {
        'a' | 'A' => Some(10),
        'b' | 'B' => Some(11),
        'c' | 'C' => Some(12),
        'd' | 'D' => Some(13),
        'e' | 'E' => Some(14),
        'f' | 'F' => Some(15),
        _ => dec_digit_of(c),
    }
}

/// Reads the span `sp` of `chars` as a decimal numeral of at most `max`.
pub(crate) fn read_dec(chars: &Vec<char>, sp: Span, max: u32) -> (r: Option<u32>)
    requires
        sp.within(chars@),
        max <= 0xFFF_FFFF,
    ensures
        r is Some == bounded_dec(sp.of(chars@), max as nat) is Some,
        r matches Some(v) ==> bounded_dec(sp.of(chars@), max as nat) == Some(v as nat),
{
    let ghost s = sp.of(chars@);
    if sp.start == sp.end {
        return None;
    }
    let mut acc: u32 = 0;
    let mut i: usize = sp.start;
    while i < sp.end
        invariant
            sp.within(chars@),
            s == sp.of(chars@),
            max <= 0xFFF_FFFF,
            sp.start <= i <= sp.end,
            all_dec(s.take(i - sp.start)),
            acc == dec_value(s.take(i - sp.start)),
            acc <= max,
        decreases sp.end - i,
    {
        let ghost k = i - sp.start;
        proof {
            assert(s.take(k + 1).drop_last() =~= s.take(k));
            assert(s.take(k + 1).last() == chars@[i as int]);
            assert(s[k] == chars@[i as int]);
        }
        match dec_digit_of(chars[i]) {
            None => {
                return None;
            },
            Some(d) => {
                acc = acc * 10 + d;
                proof {
                    assert forall|j: int| 0 <= j < k + 1 implies dec_digit(
                        #[trigger] s.take(k + 1)[j],
                    ) is Some by {
                        if j < k {
                            assert(s.take(k)[j] == s.take(k + 1)[j]);
                        }
                    }
                }
                if acc > max {
                    proof {
                        lemma_dec_value_prefix(s, k + 1);
                    }
                    return None;
                }
            },
        }
        i += 1;
    }
    proof {
        assert(s.take(sp.end - sp.start) =~= s);
    }
    Some(acc)
}

/// Reads the span `sp` of `chars` as a hexadecimal numeral of at most `max`.
pub(crate) fn read_hex(chars: &Vec<char>, sp: Span, max: u32) -> (r: Option<u32>)
    requires
        sp.within(chars@),
        max <= 0xFFF_FFFF,
    ensures
        r is Some == bounded_hex(sp.of(chars@), max as nat) is Some,
        r matches Some(v) ==> bounded_hex(sp.of(chars@), max as nat) == Some(v as nat),
{
    let ghost s = sp.of(chars@);
    if sp.start == sp.end {
        return None;
    }
    let mut acc: u32 = 0;
    let mut i: usize = sp.start;
    while i < sp.end
        invariant
            sp.within(chars@),
            s == sp.of(chars@),
            max <= 0xFFF_FFFF,
            sp.start <= i <= sp.end,
            all_hex(s.take(i - sp.start)),
            acc == hex_value(s.take(i - sp.start)),
            acc <= max,
        decreases sp.end - i,
    {
        let ghost k = i - sp.start;
        proof {
            assert(s.take(k + 1).drop_last() =~= s.take(k));
            assert(s.take(k + 1).last() == chars@[i as int]);
            assert(s[k] == chars@[i as int]);
        }
        match hex_digit_of(chars[i]) {
            None => {
                return None;
            },
            Some(d) => {
                acc = acc * 16 + d;
                proof {
                    assert forall|j: int| 0 <= j < k + 1 implies hex_digit(
                        #[trigger] s.take(k + 1)[j],
                    ) is Some by {
                        if j < k {
                            assert(s.take(k)[j] == s.take(k + 1)[j]);
                        }
                    }
                }
                if acc > max {
                    proof {
                        lemma_hex_value_prefix(s, k + 1);
                    }
                    return None;
                }
            },
        }
        i += 1;
    }
    proof {
        assert(s.take(sp.end - sp.start) =~= s);
    }
    Some(acc)
}

/// The one-character text of the digit `d`.
pub(crate) fn digit_str(d: u32) -> (r: &'static str)
    requires
        d < 16,
    ensures
        r@ == seq![digit_char(d as nat)],
{
    proof {
        reveal_strlit("0");
        reveal_strlit("1");
        reveal_strlit("2");
        reveal_strlit("3");
        reveal_strlit("4");
        reveal_strlit("5");
        reveal_strlit("6");
        reveal_strlit("7");
        reveal_strlit("8");
        reveal_strlit("9");
        reveal_strlit("a");
        reveal_strlit("b");
        reveal_strlit("c");
        reveal_strlit("d");
        reveal_strlit("e");
        reveal_strlit("f");
    }
    let r = match d {
        0 => "0",
        1 => "1",
        2 => "2",
        3 => "3",
        4 => "4",
        5 => "5",
        6 => "6",
        7 => "7",
        8 => "8",
        9 => "9",
        10 => "a",
        11 => "b",
        12 => "c",
        13 => "d",
        14 => "e",
        _ => "f",
    };
    assert(r@ =~= seq![digit_char(d as nat)]);
    r
}

/// Appends the shortest decimal numeral for `n` to `out`.
pub(crate) fn append_dec(out: &mut String, n: u32)
    ensures
        final(out)@ == old(out)@ + dec_text(n as nat),
    decreases n,
{
    if n >= 10 {
        append_dec(out, n / 10);
    }
    out.append(digit_str(n % 10));
    proof {
        if n >= 10 {
            assert(final(out)@ =~= old(out)@ + dec_text(n as nat));
        } else {
            assert(final(out)@ =~= old(out)@ + dec_text(n as nat));
        }
    }
}

/// Appends the shortest lower-case hexadecimal numeral for `n` to `out`.
pub(crate) fn append_hex(out: &mut String, n: u32)
    ensures
        final(out)@ == old(out)@ + hex_text(n as nat),
    decreases n,
{
    if n >= 16 {
        append_hex(out, n / 16);
    }
    out.append(digit_str(n % 16));
    proof {
        assert(final(out)@ =~= old(out)@ + hex_text(n as nat));
    }
}

/// A digit written by `digit_char` reads back as its value.
pub proof fn lemma_digit_char(d: nat)
    requires
        d < 16,
    ensures
        hex_digit(digit_char(d)) == Some(d),
        d < 10 ==> dec_digit(digit_char(d)) == Some(d),
        digit_char(d) != '+',
{
}

/// The shortest decimal numeral of `n` is made of digits, has the value
/// `n`, starts with no zero unless `n` is zero, and is as long as `n` is
/// large.
pub proof fn lemma_dec_text(n: nat)
    ensures
        dec_text(n).len() >= 1,
        all_dec(dec_text(n)),
        dec_value(dec_text(n)) == n,
        n > 0 ==> dec_text(n)[0] != '0',
        n < 10 <==> dec_text(n).len() == 1,
        n < 100 ==> dec_text(n).len() <= 2,
        n < 1000 ==> dec_text(n).len() <= 3,
        n < 10000 ==> dec_text(n).len() <= 4,
        n < 100000 ==> dec_text(n).len() <= 5,
    decreases n,
{
    let t = dec_text(n);
    if n < 10 {
        assert(t.drop_last() =~= Seq::<char>::empty());
        assert(dec_value(t.drop_last()) == 0);
    } else {
        lemma_dec_text(n / 10);
        let h = dec_text(n / 10);
        assert(t.drop_last() =~= h);
        assert(t[0] == h[0]);
        assert forall|i: int| 0 <= i < t.len() implies dec_digit(#[trigger] t[i]) is Some by {
            if i < h.len() {
                assert(t[i] == h[i]);
            }
        }
    }
}

/// The shortest hexadecimal numeral of `n` is made of digits, has the value
/// `n`, and is as long as `n` is large.
pub proof fn lemma_hex_text(n: nat)
    ensures
        hex_text(n).len() >= 1,
        all_hex(hex_text(n)),
        hex_value(hex_text(n)) == n,
        n < 0x10 ==> hex_text(n).len() == 1,
        n < 0x100 ==> hex_text(n).len() <= 2,
        n < 0x1000 ==> hex_text(n).len() <= 3,
        n < 0x10000 ==> hex_text(n).len() <= 4,
    decreases n,
{
    let t = hex_text(n);
    if n < 16 {
        assert(t.drop_last() =~= Seq::<char>::empty());
        assert(hex_value(t.drop_last()) == 0);
    } else {
        lemma_hex_text(n / 16);
        let h = hex_text(n / 16);
        assert(t.drop_last() =~= h);
        assert forall|i: int| 0 <= i < t.len() implies hex_digit(#[trigger] t[i]) is Some by {
            if i < h.len() {
                assert(t[i] == h[i]);
            }
        }
    }
}

/// Decimal digits are hexadecimal digits.
pub proof fn lemma_dec_is_hex(s: Seq<char>)
    requires
        all_dec(s),
    ensures
        all_hex(s),
{
    assert forall|i: int| 0 <= i < s.len() implies hex_digit(#[trigger] s[i]) is Some by {
        assert(dec_digit(s[i]) is Some);
    }
}

/// A numeral made of digits holds none of the marks that part addresses.
pub proof fn lemma_digits_free(s: Seq<char>)
    requires
        all_hex(s),
    ensures
        free_of(s, '/'),
        free_of(s, '.'),
        free_of(s, ':'),
{
    assert forall|i: int| 0 <= i < s.len() implies s[i] != '/' && s[i] != '.' && s[i] != ':' by {
        assert(hex_digit(s[i]) is Some);
    }
}

/// A numeral's value is at least that of each of its prefixes.
pub proof fn lemma_dec_value_prefix(s: Seq<char>, k: int)
    requires
        0 <= k <= s.len(),
    ensures
        dec_value(s.take(k)) <= dec_value(s),
    decreases s.len() - k,
{
    if k == s.len() {
        assert(s.take(k) =~= s);
    } else {
        lemma_dec_value_prefix(s.drop_last(), k);
        assert(s.drop_last().take(k) =~= s.take(k));
    }
}

/// A hexadecimal numeral's value is at least that of each of its prefixes.
pub proof fn lemma_hex_value_prefix(s: Seq<char>, k: int)
    requires
        0 <= k <= s.len(),
    ensures
        hex_value(s.take(k)) <= hex_value(s),
    decreases s.len() - k,
{
    if k == s.len() {
        assert(s.take(k) =~= s);
    } else {
        lemma_hex_value_prefix(s.drop_last(), k);
        assert(s.drop_last().take(k) =~= s.take(k));
    }
}

/// The digits of bytes read back as the bytes.
pub proof fn lemma_hex_pairs(data: Seq<u8>)
    ensures
        hex_pairs(data).len() == 2 * data.len(),
        all_hex(hex_pairs(data)),
        paired_bytes(hex_pairs(data)) == Some(data),
{
    let t = hex_pairs(data);
    assert forall|i: int| 0 <= i < t.len() implies hex_digit(#[trigger] t[i]) is Some by {
        lemma_digit_char((data[i / 2] / 16) as nat);
        lemma_digit_char((data[i / 2] % 16) as nat);
    }
    let back = paired_bytes(t).unwrap();
    assert forall|i: int| 0 <= i < data.len() implies back[i] == data[i] by {
        lemma_digit_char((data[i] / 16) as nat);
        lemma_digit_char((data[i] % 16) as nat);
        assert(t[2 * i] == digit_char((data[i] / 16) as nat));
        assert(t[2 * i + 1] == digit_char((data[i] % 16) as nat));
    }
    assert(back =~= data);
}

} // verus!
