//! Characters, white space and fields: the text layer under the wire formats.

use vstd::prelude::*;

verus! {

/// Whether `c` has the Unicode property White_Space.
pub open spec fn is_whitespace(c: char) -> bool {
    let u = c as u32;
    ||| 0x09 <= u <= 0x0d
    ||| u == 0x20
    ||| u == 0x85
    ||| u == 0xa0
    ||| u == 0x1680
    ||| 0x2000 <= u <= 0x200a
    ||| u == 0x2028
    ||| u == 0x2029
    ||| u == 0x202f
    ||| u == 0x205f
    ||| u == 0x3000
}

/// Decides `is_whitespace`.
pub fn whitespace(c: char) -> (b: bool)
    ensures
        b == is_whitespace(c),
{
    let u: u32 = c as u32;
    (0x09 <= u && u <= 0x0d) || u == 0x20 || u == 0x85 || u == 0xa0 || u == 0x1680 || (0x2000 <= u
        && u <= 0x200a) || u == 0x2028 || u == 0x2029 || u == 0x202f || u == 0x205f || u == 0x3000
}

/// The characters of a string, in order.
pub fn chars_of(s: &str) -> (out: Vec<char>)
    ensures
        out@ == s@,
{
    let mut out: Vec<char> = Vec::new();
    for c in it: s.chars()
        invariant
            out@ == it.seq().take(it.index() as int),
    {
        out.push(c);
    }
    out
}

/// The text that a lossy UTF-8 decoding makes of `bytes`: each malformed
/// sequence stands in it as one replacement character.
pub uninterp spec fn lossy_text(bytes: Seq<u8>) -> Seq<char>;

/// `String::from_utf8_lossy`, taken as an owned string: the result is the
/// lossy decoding of `bytes`, which for well-formed UTF-8 is the text that
/// the bytes encode.
#[verifier::external_body]
pub(crate) fn decode_lossy(bytes: &[u8]) -> (out: String)
    ensures
        out@ == lossy_text(bytes@),
        vstd::utf8::valid_utf8(bytes@) ==> out@ == vstd::utf8::decode_utf8(bytes@),
{
    String::from_utf8_lossy(bytes).into_owned()
}

/// The number of white-space characters that `s` starts with.
pub open spec fn leading_whitespace(s: Seq<char>) -> nat
    decreases s.len(),
{
    if s.len() > 0 && is_whitespace(s[0]) {
        1 + leading_whitespace(s.drop_first())
    } else {
        0
    }
}

/// The number of white-space characters that `s` ends with.
pub open spec fn trailing_whitespace(s: Seq<char>) -> nat
    decreases s.len(),
{
    if s.len() > 0 && is_whitespace(s.last()) {
        1 + trailing_whitespace(s.drop_last())
    } else {
        0
    }
}

/// `s` without the white space at its two ends.
pub open spec fn trim(s: Seq<char>) -> Seq<char> {
    if leading_whitespace(s) >= s.len() {
        Seq::empty()
    } else {
        s.subrange(leading_whitespace(s) as int, s.len() - trailing_whitespace(s))
    }
}

/// A prefix made of white space only is the whole leading white space as
/// soon as a character that is none follows it.
proof fn lemma_leading_whitespace_is(s: Seq<char>, n: int)
    requires
        0 <= n <= s.len(),
        forall|i: int| 0 <= i < n ==> is_whitespace(#[trigger] s[i]),
        n < s.len() ==> !is_whitespace(s[n]),
    ensures
        leading_whitespace(s) == n,
    decreases n,
{
    if n > 0 {
        lemma_leading_whitespace_is(s.drop_first(), n - 1);
    }
}

/// The same of the white space at the end.
proof fn lemma_trailing_whitespace_is(s: Seq<char>, n: int)
    requires
        0 <= n <= s.len(),
        forall|i: int| s.len() - n <= i < s.len() ==> is_whitespace(#[trigger] s[i]),
        n < s.len() ==> !is_whitespace(s[s.len() - n - 1]),
    ensures
        trailing_whitespace(s) == n,
    decreases n,
{
    if n > 0 {
        lemma_trailing_whitespace_is(s.drop_last(), n - 1);
    }
}

/// The part of `s` between the white space at its two ends.
pub fn trimmed<'a>(s: &'a [char]) -> (out: &'a [char])
    ensures
        out@ == trim(s@),
{
    let n = s.len();
    let mut lo: usize = 0;
    while lo < n && whitespace(s[lo])
        invariant
            n == s.len(),
            lo <= n,
            forall|i: int| 0 <= i < lo ==> is_whitespace(#[trigger] s@[i]),
        decreases n - lo,
    {
        lo += 1;
    }
    proof {
        lemma_leading_whitespace_is(s@, lo as int);
    }
    if lo == n {
        return vstd::slice::slice_subrange(s, 0, 0);
    }
    let mut hi: usize = n;
    while hi > lo && whitespace(s[hi - 1])
        invariant
            n == s.len(),
            lo <= hi <= n,
            lo < n,
            !is_whitespace(s@[lo as int]),
            forall|i: int| hi <= i < n ==> is_whitespace(#[trigger] s@[i]),
        decreases hi,
    {
        hi -= 1;
    }
    proof {
        lemma_trailing_whitespace_is(s@, n - hi);
    }
    vstd::slice::slice_subrange(s, lo, hi)
}

/// The number of characters before the first white space in `s`.
pub open spec fn word_len(s: Seq<char>) -> nat
    decreases s.len(),
{
    if s.len() > 0 && !is_whitespace(s[0]) {
        1 + word_len(s.drop_first())
    } else {
        0
    }
}

/// The maximal runs of characters that are not white space, in order.
pub open spec fn tokens(s: Seq<char>) -> Seq<Seq<char>>
    decreases s.len(),
    via tokens_decreases
{
    if s.len() == 0 {
        Seq::empty()
    } else if is_whitespace(s[0]) {
        tokens(s.drop_first())
    } else {
        seq![s.take(word_len(s) as int)] + tokens(s.skip(word_len(s) as int))
    }
}

#[via_fn]
proof fn tokens_decreases(s: Seq<char>) {
    lemma_word_len_bound(s);
}

/// The first word lies within `s`, and is not empty where `s` starts with
/// a character that is no white space.
pub proof fn lemma_word_len_bound(s: Seq<char>)
    ensures
        word_len(s) <= s.len(),
        s.len() > 0 && !is_whitespace(s[0]) ==> word_len(s) > 0,
    decreases s.len(),
{
    if s.len() > 0 && !is_whitespace(s[0]) {
        lemma_word_len_bound(s.drop_first());
    }
}

/// A prefix without white space is the whole first word as soon as white
/// space or the end follows it.
proof fn lemma_word_len_is(s: Seq<char>, n: int)
    requires
        0 <= n <= s.len(),
        forall|i: int| 0 <= i < n ==> !is_whitespace(#[trigger] s[i]),
        n < s.len() ==> is_whitespace(s[n]),
    ensures
        word_len(s) == n,
    decreases n,
{
    if n > 0 {
        lemma_word_len_is(s.drop_first(), n - 1);
    }
}

/// Two words with one space between them are their own two tokens, and
/// there is nothing to trim off them.
pub proof fn lemma_tokens_of_pair(t: Seq<char>, u: Seq<char>)
    requires
        t.len() > 0,
        u.len() > 0,
        forall|i: int| 0 <= i < t.len() ==> !is_whitespace(#[trigger] t[i]),
        forall|i: int| 0 <= i < u.len() ==> !is_whitespace(#[trigger] u[i]),
    ensures
        trim(t + seq![' '] + u) == t + seq![' '] + u,
        tokens(t + seq![' '] + u) == seq![t, u],
{
    let m = t + seq![' '] + u;
    lemma_word_len_is(m, t.len() as int);
    assert(m.take(t.len() as int) == t);
    let rest = m.skip(t.len() as int);
    assert(rest.drop_first() == u);
    lemma_word_len_is(u, u.len() as int);
    assert(u.take(u.len() as int) == u);
    assert(u.skip(u.len() as int) == Seq::<char>::empty());
    assert(tokens(u) == seq![u] + tokens(Seq::<char>::empty()));
    assert(tokens(rest) == tokens(u));
}

/// What each slice of `v` holds.
pub open spec fn views(v: Seq<&[char]>) -> Seq<Seq<char>> {
    v.map_values(|f: &[char]| f@)
}

/// Cuts `s` into its tokens.
pub fn split_whitespace<'a>(s: &'a [char]) -> (out: Vec<&'a [char]>)
    ensures
        views(out@) == tokens(s@),
{
    let n = s.len();
    let mut out: Vec<&'a [char]> = Vec::new();
    let mut pos: usize = 0;
    assert(s@.skip(0) == s@);
    while pos < n
        invariant
            n == s.len(),
            pos <= n,
            tokens(s@) == views(out@) + tokens(s@.skip(pos as int)),
        decreases n - pos,
    {
        let ghost rest = s@.skip(pos as int);
        if whitespace(s[pos]) {
            assert(rest.drop_first() == s@.skip(pos + 1));
            pos += 1;
        } else {
            let start = pos;
            while pos < n && !whitespace(s[pos])
                invariant
                    n == s.len(),
                    start <= pos <= n,
                    forall|i: int| start <= i < pos ==> !is_whitespace(#[trigger] s@[i]),
                decreases n - pos,
            {
                pos += 1;
            }
            let word = vstd::slice::slice_subrange(s, start, pos);
            proof {
                lemma_word_len_is(rest, pos - start);
                assert(rest.take(pos - start) == word@);
                assert(rest.skip(pos - start) == s@.skip(pos as int));
            }
            out.push(word);
        }
    }
    out
}

/// The place of the first `c` in `s`, or the length of `s` where it holds none.
pub open spec fn find(s: Seq<char>, c: char) -> nat
    decreases s.len(),
{
    if s.len() > 0 && s[0] != c {
        1 + find(s.drop_first(), c)
    } else {
        0
    }
}

/// `find` lies within `s`, passes over no `c`, and stops at one unless it
/// reaches the end.
pub proof fn lemma_find_bound(s: Seq<char>, c: char)
    ensures
        find(s, c) <= s.len(),
        forall|i: int| 0 <= i < find(s, c) ==> #[trigger] s[i] != c,
        find(s, c) < s.len() ==> s[find(s, c) as int] == c,
    decreases s.len(),
{
    if s.len() > 0 && s[0] != c {
        let t = s.drop_first();
        lemma_find_bound(t, c);
        assert forall|i: int| 0 <= i < find(s, c) implies #[trigger] s[i] != c by {
            if i > 0 {
                assert(s[i] == t[i - 1]);
            }
        }
    }
}

/// `find` falls inside `s` just where `s` holds `c`.
pub proof fn lemma_find_contains(s: Seq<char>, c: char)
    ensures
        find(s, c) < s.len() <==> s.contains(c),
{
    lemma_find_bound(s, c);
    if s.contains(c) && find(s, c) >= s.len() {
        let i = choose|i: int| 0 <= i < s.len() && s[i] == c;
        assert(s[i] != c);
    }
}

/// A place that no `c` stands before is where `find` stops, if a `c` or the
/// end is there.
proof fn lemma_find_is(s: Seq<char>, c: char, n: int)
    requires
        0 <= n <= s.len(),
        forall|i: int| 0 <= i < n ==> #[trigger] s[i] != c,
        n < s.len() ==> s[n] == c,
    ensures
        find(s, c) == n,
    decreases n,
{
    if n > 0 {
        lemma_find_is(s.drop_first(), c, n - 1);
    }
}

/// The place of the first `c` in `s`, or the length of `s`.
pub fn position(s: &[char], c: char) -> (i: usize)
    ensures
        i == find(s@, c),
        i <= s@.len(),
{
    let n = s.len();
    let mut i: usize = 0;
    while i < n && s[i] != c
        invariant
            n == s.len(),
            i <= n,
            forall|j: int| 0 <= j < i ==> #[trigger] s@[j] != c,
        decreases n - i,
    {
        i += 1;
    }
    proof {
        lemma_find_is(s@, c, i as int);
    }
    i
}

/// The fields of `s` that the separator `c` parts: one more than `s` holds
/// separators, empty ones included.
pub open spec fn split(s: Seq<char>, c: char) -> Seq<Seq<char>>
    decreases s.len(),
    via split_decreases
{
    if find(s, c) >= s.len() {
        seq![s]
    } else {
        seq![s.take(find(s, c) as int)] + split(s.skip(find(s, c) as int + 1), c)
    }
}

#[via_fn]
proof fn split_decreases(s: Seq<char>, c: char) {
    lemma_find_bound(s, c);
}

/// Cuts `s` at each `c`.
pub fn split_at_char<'a>(s: &'a [char], c: char) -> (out: Vec<&'a [char]>)
    ensures
        views(out@) == split(s@, c),
{
    let n = s.len();
    let mut out: Vec<&'a [char]> = Vec::new();
    let mut pos: usize = 0;
    assert(s@.skip(0) == s@);
    loop
        invariant_except_break
            n == s.len(),
            pos <= n,
            split(s@, c) == views(out@) + split(s@.skip(pos as int), c),
        ensures
            views(out@) == split(s@, c),
        decreases n - pos,
    {
        let rest = vstd::slice::slice_subrange(s, pos, n);
        let k = position(rest, c);
        let field = vstd::slice::slice_subrange(rest, 0, k);
        out.push(field);
        if k >= rest.len() {
            assert(rest@.take(k as int) == rest@);
            break;
        }
        assert(rest@.skip(k + 1) == s@.skip(pos + k + 1));
        pos = pos + k + 1;
    }
    out
}

} // verus!
