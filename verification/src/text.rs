//! Character-level building blocks: spans of a text, tokens between
//! slashes, and fields between a separator.

use vstd::prelude::*;

verus! {

/// A stretch of a character sequence, from `start` up to but not including
/// `end`.
#[derive(Clone, Copy, Debug)]
pub struct Span {
    pub start: usize,
    pub end: usize,
}

impl Span {
    /// The characters of `s` that the span covers.
    pub open spec fn of(self, s: Seq<char>) -> Seq<char> {
        s.subrange(self.start as int, self.end as int)
    }

    /// Whether the span lies within `s`.
    pub open spec fn within(self, s: Seq<char>) -> bool {
        self.start <= self.end <= s.len()
    }
}

/// The index of the first `c` in `s`, or `s.len()` when `s` holds none.
pub open spec fn find(s: Seq<char>, c: char) -> int
    decreases s.len(),
{
    if s.len() == 0 || s[0] == c {
        0
    } else {
        1 + find(s.skip(1), c)
    }
}

/// Whether `c` occurs nowhere in `s`.
pub open spec fn free_of(s: Seq<char>, c: char) -> bool {
    forall|i: int| 0 <= i < s.len() ==> s[i] != c
}

/// A token is a non-empty run of characters other than `/`.
pub open spec fn is_token(t: Seq<char>) -> bool {
    t.len() > 0 && free_of(t, '/')
}

/// The tokens of `s`: its maximal runs of characters other than `/`, in
/// order. Leading, trailing and doubled slashes leave no trace.
pub open spec fn tokens(s: Seq<char>) -> Seq<Seq<char>>
    decreases s.len(),
{
    if s.len() == 0 {
        Seq::empty()
    } else {
        let i = find(s, '/');
        if i == 0 {
            tokens(s.skip(1))
        } else {
            proof {
                lemma_find(s, '/');
            }
            seq![s.take(i)] + tokens(s.skip(i))
        }
    }
}

/// The fields of `s` between occurrences of `sep`; empty fields are kept, so
/// a sequence without `sep` is its own single field.
pub open spec fn split(s: Seq<char>, sep: char) -> Seq<Seq<char>>
    decreases s.len(),
{
    let i = find(s, sep);
    if i >= s.len() {
        seq![s]
    } else {
        proof {
            lemma_find(s, sep);
        }
        seq![s.take(i)] + split(s.skip(i + 1), sep)
    }
}

/// `parts` written one after another with `sep` between neighbours.
pub open spec fn join(parts: Seq<Seq<char>>, sep: char) -> Seq<char>
    decreases parts.len(),
{
    if parts.len() == 0 {
        Seq::empty()
    } else if parts.len() == 1 {
        parts[0]
    } else {
        parts[0] + seq![sep] + join(parts.skip(1), sep)
    }
}

/// Whether `sep` stands at index `j` of `s` and again right after it.
pub open spec fn doubled_at(s: Seq<char>, sep: char, j: int) -> bool {
    0 <= j && j + 1 < s.len() && s[j] == sep && s[j + 1] == sep
}

/// Whether every part is non-empty and free of `sep`.
pub open spec fn solid(parts: Seq<Seq<char>>, sep: char) -> bool {
    forall|k: int| 0 <= k < parts.len() ==> (#[trigger] parts[k]).len() > 0 && free_of(parts[k], sep)
}

/// The characters of `s`, one element each.
pub(crate) fn chars_of(s: &str) -> (v: Vec<char>)
    ensures
        v@ == s@,
{
    let mut v: Vec<char> = Vec::new();
    for c in it: s.chars()
        invariant
            v@ == it.seq().take(it.index() as int),
    {
        v.push(c);
    }
    v
}

/// Whether the span `sp` of `chars` reads exactly `word`.
pub(crate) fn span_is(chars: &Vec<char>, sp: Span, word: &str) -> (r: bool)
    requires
        sp.within(chars@),
    ensures
        r == (sp.of(chars@) == word@),
{
    let n = word.unicode_len();
    if sp.end - sp.start != n {
        return false;
    }
    let mut i: usize = 0;
    while i < n
        invariant
            sp.within(chars@),
            n == word@.len(),
            sp.end - sp.start == n,
            i <= n,
            forall|j: int| 0 <= j < i ==> chars@[sp.start + j] == word@[j],
        decreases n - i,
    {
        if chars[sp.start + i] != word.get_char(i) {
            assert(sp.of(chars@)[i as int] != word@[i as int]);
            return false;
        }
        i += 1;
    }
    assert(sp.of(chars@) =~= word@);
    true
}

/// The first index at or after `from` and before `to` at which `chars` holds
/// `c`, or `to` when there is none.
pub(crate) fn find_char(chars: &Vec<char>, from: usize, to: usize, c: char) -> (k: usize)
    requires
        from <= to <= chars.len(),
    ensures
        from <= k <= to,
        k == from + find(chars@.subrange(from as int, to as int), c),
{
    let mut k: usize = from;
    while k < to && chars[k] != c
        invariant
            from <= k <= to <= chars.len(),
            forall|j: int| from <= j < k ==> chars@[j] != c,
        decreases to - k,
    {
        k += 1;
    }
    proof {
        lemma_find_is(chars@.subrange(from as int, to as int), c, k - from);
    }
    k
}

/// The spans of the tokens of `chars`, in order.
pub(crate) fn token_spans(chars: &Vec<char>) -> (spans: Vec<Span>)
    ensures
        spans@.len() == tokens(chars@).len(),
        forall|k: int|
            0 <= k < spans@.len() ==> (#[trigger] spans@[k]).within(chars@) && spans@[k].of(
                chars@,
            ) == tokens(chars@)[k],
{
    let n = chars.len();
    let mut spans: Vec<Span> = Vec::new();
    let mut i: usize = 0;
    let ghost mut done: Seq<Seq<char>> = Seq::empty();
    proof {
        assert(chars@.skip(0) =~= chars@);
    }
    while i < n
        invariant
            n == chars.len(),
            i <= n,
            done.len() == spans@.len(),
            forall|k: int|
                0 <= k < spans@.len() ==> (#[trigger] spans@[k]).within(chars@) && spans@[k].of(
                    chars@,
                ) == done[k],
            tokens(chars@) == done + tokens(chars@.skip(i as int)),
        decreases n - i,
    {
        let ghost rest = chars@.skip(i as int);
        let j = find_char(chars, i, n, '/');
        proof {
            assert(chars@.subrange(i as int, n as int) =~= rest);
            lemma_find(rest, '/');
        }
        if j == i {
            proof {
                assert(rest.skip(1) =~= chars@.skip(i + 1));
            }
            i += 1;
        } else {
            let sp = Span { start: i, end: j };
            proof {
                assert(rest.take(j - i) =~= sp.of(chars@));
                assert(rest.skip(j - i) =~= chars@.skip(j as int));
                assert(done + (seq![sp.of(chars@)] + tokens(chars@.skip(j as int))) =~= done.push(
                    sp.of(chars@),
                ) + tokens(chars@.skip(j as int)));
                done = done.push(sp.of(chars@));
            }
            spans.push(sp);
            i = j;
        }
    }
    proof {
        assert(chars@.skip(n as int) =~= Seq::<char>::empty());
        assert(tokens(chars@) =~= done);
    }
    spans
}

/// The spans of the fields that `sep` parts the span `sp` of `chars` into.
pub(crate) fn split_spans(chars: &Vec<char>, sp: Span, sep: char) -> (spans: Vec<Span>)
    requires
        sp.within(chars@),
    ensures
        spans@.len() == split(sp.of(chars@), sep).len(),
        forall|k: int|
            0 <= k < spans@.len() ==> (#[trigger] spans@[k]).within(chars@) && spans@[k].of(
                chars@,
            ) == split(sp.of(chars@), sep)[k],
{
    let ghost s = sp.of(chars@);
    let mut spans: Vec<Span> = Vec::new();
    let mut i: usize = sp.start;
    let ghost mut done: Seq<Seq<char>> = Seq::empty();
    proof {
        assert(s.skip(0) =~= s);
    }
    loop
        invariant
            sp.within(chars@),
            s == sp.of(chars@),
            sp.start <= i <= sp.end,
            done.len() == spans@.len(),
            forall|k: int|
                0 <= k < spans@.len() ==> (#[trigger] spans@[k]).within(chars@) && spans@[k].of(
                    chars@,
                ) == done[k],
            split(s, sep) == done + split(s.skip(i - sp.start), sep),
        decreases sp.end - i,
    {
        let ghost rest = s.skip(i - sp.start);
        let j = find_char(chars, i, sp.end, sep);
        let field = Span { start: i, end: j };
        proof {
            assert(chars@.subrange(i as int, sp.end as int) =~= rest);
            lemma_find(rest, sep);
            assert(rest.take(j - i) =~= field.of(chars@));
        }
        spans.push(field);
        if j == sp.end {
            proof {
                assert(rest.take(j - i) =~= rest);
                assert(split(s, sep) =~= done.push(field.of(chars@)));
                done = done.push(field.of(chars@));
            }
            return spans;
        }
        proof {
            assert(rest.skip(j - i + 1) =~= s.skip(j + 1 - sp.start));
            assert(done + (seq![field.of(chars@)] + split(s.skip(j + 1 - sp.start), sep))
                =~= done.push(field.of(chars@)) + split(s.skip(j + 1 - sp.start), sep));
            done = done.push(field.of(chars@));
        }
        i = j + 1;
    }
}

/// `find` is within the sequence, stands at a `c` if there is one, and has
/// none before it.
pub proof fn lemma_find(s: Seq<char>, c: char)
    ensures
        0 <= find(s, c) <= s.len(),
        forall|j: int| 0 <= j < find(s, c) ==> s[j] != c,
        find(s, c) < s.len() ==> s[find(s, c)] == c,
    decreases s.len(),
{
    if s.len() == 0 || s[0] == c {
    } else {
        lemma_find(s.skip(1), c);
        assert forall|j: int| 0 <= j < find(s, c) implies s[j] != c by {
            if j > 0 {
                assert(s.skip(1)[j - 1] == s[j]);
            }
        }
    }
}

/// `find` is the only index with nothing but other characters before it and
/// `c`, or the end, at it.
pub proof fn lemma_find_is(s: Seq<char>, c: char, k: int)
    requires
        0 <= k <= s.len(),
        forall|j: int| 0 <= j < k ==> s[j] != c,
        k < s.len() ==> s[k] == c,
    ensures
        find(s, c) == k,
    decreases s.len(),
{
    if s.len() == 0 || s[0] == c {
    } else {
        let t = s.skip(1);
        assert forall|j: int| 0 <= j < k - 1 implies t[j] != c by {
            assert(t[j] == s[j + 1]);
        }
        lemma_find_is(t, c, k - 1);
    }
}

/// Every token of a sequence is a token.
pub proof fn lemma_tokens_are_tokens(s: Seq<char>)
    ensures
        forall|k: int| 0 <= k < tokens(s).len() ==> is_token(#[trigger] tokens(s)[k]),
    decreases s.len(),
{
    if s.len() == 0 {
    } else {
        let i = find(s, '/');
        lemma_find(s, '/');
        if i == 0 {
            lemma_tokens_are_tokens(s.skip(1));
            assert(tokens(s) == tokens(s.skip(1)));
        } else {
            lemma_tokens_are_tokens(s.skip(i));
            assert(is_token(s.take(i)));
            let rest = tokens(s.skip(i));
            assert forall|k: int| 0 <= k < tokens(s).len() implies is_token(
                #[trigger] tokens(s)[k],
            ) by {
                if k > 0 {
                    assert(tokens(s)[k] == rest[k - 1]);
                    assert(is_token(rest[k - 1]));
                } else {
                    assert(tokens(s)[0] == s.take(i));
                }
            }
        }
    }
}

/// Splitting what `join` wrote gives the parts back, as long as no part
/// holds the separator.
pub proof fn lemma_split_join(parts: Seq<Seq<char>>, sep: char)
    requires
        parts.len() > 0,
        forall|k: int| 0 <= k < parts.len() ==> free_of(#[trigger] parts[k], sep),
    ensures
        split(join(parts, sep), sep) == parts,
    decreases parts.len(),
{
    let s = join(parts, sep);
    if parts.len() == 1 {
        assert(free_of(parts[0], sep));
        lemma_find_is(s, sep, s.len() as int);
        assert(split(s, sep) =~= parts);
    } else {
        let rest = parts.skip(1);
        assert forall|k: int| 0 <= k < rest.len() implies free_of(#[trigger] rest[k], sep) by {
            assert(rest[k] == parts[k + 1]);
        }
        lemma_split_join(rest, sep);
        let n = parts[0].len() as int;
        assert(free_of(parts[0], sep));
        assert(s[n] == sep);
        lemma_find_is(s, sep, n);
        assert(s.take(n) =~= parts[0]);
        assert(s.skip(n + 1) =~= join(rest, sep));
        assert(split(s, sep) =~= parts);
    }
}

/// A character that neither the parts nor the separator hold is not in
/// what `join` writes.
pub proof fn lemma_join_free(parts: Seq<Seq<char>>, sep: char, c: char)
    requires
        c != sep,
        forall|k: int| 0 <= k < parts.len() ==> free_of(#[trigger] parts[k], c),
    ensures
        free_of(join(parts, sep), c),
    decreases parts.len(),
{
    if parts.len() == 0 {
    } else if parts.len() == 1 {
        assert(free_of(parts[0], c));
    } else {
        let rest = parts.skip(1);
        assert forall|k: int| 0 <= k < rest.len() implies free_of(#[trigger] rest[k], c) by {
            assert(rest[k] == parts[k + 1]);
        }
        lemma_join_free(rest, sep, c);
        assert(free_of(parts[0], c));
    }
}

/// Writing one more part after `parts` puts the separator and the part
/// behind what was written, or the part alone where there was none.
pub proof fn lemma_join_push(parts: Seq<Seq<char>>, p: Seq<char>, sep: char)
    ensures
        join(parts.push(p), sep) == if parts.len() == 0 {
            p
        } else {
            join(parts, sep) + seq![sep] + p
        },
    decreases parts.len(),
{
    let all = parts.push(p);
    if parts.len() == 0 {
    } else if parts.len() == 1 {
        assert(all.skip(1) =~= seq![p]);
        assert(join(all.skip(1), sep) == p);
        assert(join(all, sep) =~= join(parts, sep) + seq![sep] + p);
    } else {
        let rest = parts.skip(1);
        lemma_join_push(rest, p, sep);
        assert(all.skip(1) =~= rest.push(p));
        assert(all[0] == parts[0]);
        assert(join(all, sep) =~= join(parts, sep) + seq![sep] + p);
    }
}

/// What `join` writes from solid parts neither starts nor ends with the
/// separator.
pub proof fn lemma_join_ends(parts: Seq<Seq<char>>, sep: char)
    requires
        parts.len() > 0,
        solid(parts, sep),
    ensures
        join(parts, sep).len() > 0,
        join(parts, sep)[0] != sep,
        join(parts, sep).last() != sep,
    decreases parts.len(),
{
    let s = join(parts, sep);
    assert(parts[0].len() > 0 && free_of(parts[0], sep));
    if parts.len() > 1 {
        let rest = parts.skip(1);
        assert(solid(rest, sep)) by {
            assert forall|k: int| 0 <= k < rest.len() implies (#[trigger] rest[k]).len() > 0
                && free_of(rest[k], sep) by {
                assert(rest[k] == parts[k + 1]);
            }
        }
        lemma_join_ends(rest, sep);
        let r = join(rest, sep);
        assert(s == parts[0] + seq![sep] + r);
        assert(s[0] == parts[0][0]);
        assert(s.last() == r.last());
    }
}

/// What `join` writes from solid parts holds the separator nowhere twice in
/// a row.
pub proof fn lemma_join_single(parts: Seq<Seq<char>>, sep: char, j: int)
    requires
        solid(parts, sep),
    ensures
        !doubled_at(join(parts, sep), sep, j),
    decreases parts.len(),
{
    let s = join(parts, sep);
    if parts.len() == 0 {
    } else if parts.len() == 1 {
        assert(parts[0].len() > 0 && free_of(parts[0], sep));
    } else {
        assert(parts[0].len() > 0 && free_of(parts[0], sep));
        let rest = parts.skip(1);
        assert(solid(rest, sep)) by {
            assert forall|k: int| 0 <= k < rest.len() implies (#[trigger] rest[k]).len() > 0
                && free_of(rest[k], sep) by {
                assert(rest[k] == parts[k + 1]);
            }
        }
        let r = join(rest, sep);
        let n = parts[0].len() as int;
        assert(s == parts[0] + seq![sep] + r);
        if 0 <= j && j + 1 < s.len() {
            if j < n {
                assert(s[j] == parts[0][j]);
            } else if j == n {
                lemma_join_ends(rest, sep);
                assert(s[j + 1] == r[0]);
            } else {
                lemma_join_single(rest, sep, j - n - 1);
                assert(s[j] == r[j - n - 1]);
                assert(s[j + 1] == r[j - n]);
            }
        }
    }
}

} // verus!
