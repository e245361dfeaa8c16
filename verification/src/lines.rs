//! White space and line ends: trimming, splitting into words and splitting into lines.

use vstd::prelude::*;

use crate::search;
use crate::search::index_from;
use crate::text;
use crate::text::{chars_of, string_of};

verus! {

/// The characters with the Unicode property White_Space.
pub open spec fn white_space(c: char) -> bool {
    ||| '\u{9}' <= c <= '\u{d}'
    ||| c == ' '
    ||| c == '\u{85}'
    ||| c == '\u{a0}'
    ||| c == '\u{1680}'
    ||| '\u{2000}' <= c <= '\u{200a}'
    ||| c == '\u{2028}'
    ||| c == '\u{2029}'
    ||| c == '\u{202f}'
    ||| c == '\u{205f}'
    ||| c == '\u{3000}'
}

/// Whether `c` is white space.
pub fn is_white_space(c: char) -> (r: bool)
    ensures
        r == white_space(c),
{
    ('\u{9}' <= c && c <= '\u{d}') || c == ' ' || c == '\u{85}' || c == '\u{a0}' || c == '\u{1680}'
        || ('\u{2000}' <= c && c <= '\u{200a}') || c == '\u{2028}' || c == '\u{2029}' || c
        == '\u{202f}' || c == '\u{205f}' || c == '\u{3000}'
}

/// `s` without its leading white space.
pub open spec fn trim_start(s: Seq<char>) -> Seq<char>
    decreases s.len(),
{
    if s.len() > 0 && white_space(s[0]) {
        trim_start(s.drop_first())
    } else {
        s
    }
}

/// `s` without its trailing white space.
pub open spec fn trim_end(s: Seq<char>) -> Seq<char>
    decreases s.len(),
{
    if s.len() > 0 && white_space(s.last()) {
        trim_end(s.drop_last())
    } else {
        s
    }
}

/// `s` without white space at either end.
pub open spec fn trim(s: Seq<char>) -> Seq<char> {
    trim_end(trim_start(s))
}

/// Whether `s` holds nothing but white space.
pub open spec fn blank(s: Seq<char>) -> bool {
    trim(s).len() == 0
}

/// A trimmed text neither begins nor ends with white space.
pub proof fn law_trimmed_text_has_no_blank_ends(s: Seq<char>)
    ensures
        trim(s).len() > 0 ==> !white_space(trim(s)[0]) && !white_space(trim(s).last()),
{
    lemma_trim_start_head(s);
    lemma_trim_end_last(trim_start(s));
}

proof fn lemma_trim_start_head(s: Seq<char>)
    ensures
        trim_start(s).len() > 0 ==> !white_space(trim_start(s)[0]),
    decreases s.len(),
{
    if s.len() > 0 && white_space(s[0]) {
        lemma_trim_start_head(s.drop_first());
    }
}

proof fn lemma_trim_end_last(s: Seq<char>)
    ensures
        trim_end(s).len() <= s.len(),
        trim_end(s) == s.take(trim_end(s).len() as int),
        trim_end(s).len() > 0 ==> !white_space(trim_end(s).last()) && trim_end(s)[0] == s[0],
    decreases s.len(),
{
    if s.len() > 0 && white_space(s.last()) {
        lemma_trim_end_last(s.drop_last());
        assert(s.drop_last().take(trim_end(s).len() as int) =~= s.take(trim_end(s).len() as int));
    } else {
        assert(s.take(s.len() as int) =~= s);
    }
}

/// The index of the first character of `v[from..]` that is not white space.
fn skip_white(v: &Vec<char>, from: usize) -> (r: usize)
    requires
        from <= v@.len(),
    ensures
        from <= r <= v@.len(),
        trim_start(v@.skip(from as int)) == v@.skip(r as int),
        r < v@.len() ==> !white_space(v@[r as int]),
{
    let mut i: usize = from;
    while i < v.len() && is_white_space(v[i])
        invariant
            from <= i <= v@.len(),
            trim_start(v@.skip(from as int)) == trim_start(v@.skip(i as int)),
        decreases v@.len() - i,
    {
        assert(v@.skip(i as int).drop_first() =~= v@.skip(i + 1));
        i = i + 1;
    }
    i
}

/// `s` without white space at either end.
pub fn trimmed(s: &str) -> (r: String)
    ensures
        r@ == trim(s@),
{
    let v = chars_of(s);
    let from = skip_white(&v, 0);
    assert(s@.skip(0) =~= s@);
    let mut to: usize = v.len();
    assert(v@.subrange(from as int, to as int) =~= v@.skip(from as int));
    while from < to && is_white_space(v[to - 1])
        invariant
            v@ == s@,
            from <= to <= v@.len(),
            trim(s@) == trim_end(v@.subrange(from as int, to as int)),
        decreases to - from,
    {
        assert(v@.subrange(from as int, to as int).drop_last() =~= v@.subrange(
            from as int,
            to - 1,
        ));
        to = to - 1;
    }
    string_of(&v, from, to)
}

/// `s` without its leading white space.
pub fn trimmed_start(s: &str) -> (r: String)
    ensures
        r@ == trim_start(s@),
{
    let v = chars_of(s);
    let from = skip_white(&v, 0);
    assert(s@.skip(0) =~= s@);
    let out = string_of(&v, from, v.len());
    assert(out@ =~= v@.skip(from as int));
    out
}

/// `s` without its trailing white space.
pub fn trimmed_end(s: &str) -> (r: String)
    ensures
        r@ == trim_end(s@),
{
    let v = chars_of(s);
    let mut to: usize = v.len();
    assert(v@.take(to as int) =~= s@);
    while to > 0 && is_white_space(v[to - 1])
        invariant
            v@ == s@,
            to <= v@.len(),
            trim_end(s@) == trim_end(v@.take(to as int)),
        decreases to,
    {
        assert(v@.take(to as int).drop_last() =~= v@.take(to - 1));
        to = to - 1;
    }
    let out = string_of(&v, 0, to);
    assert(out@ =~= v@.take(to as int));
    out
}

/// Whether `s` holds nothing but white space.
pub fn is_blank(s: &str) -> (r: bool)
    ensures
        r == blank(s@),
{
    let t = trimmed(s);
    t.as_str().is_empty()
}

// ---------------------------------------------------------------------------------------------
// Words
// ---------------------------------------------------------------------------------------------

/// The number of leading characters of `s` that are not white space.
pub open spec fn word_len(s: Seq<char>) -> int
    decreases s.len(),
{
    if s.len() == 0 || white_space(s[0]) {
        0
    } else {
        1 + word_len(s.drop_first())
    }
}

proof fn lemma_word_len(s: Seq<char>)
    ensures
        0 <= word_len(s) <= s.len(),
        forall|i: int| 0 <= i < word_len(s) ==> !white_space(#[trigger] s[i]),
    decreases s.len(),
{
    if s.len() > 0 && !white_space(s[0]) {
        lemma_word_len(s.drop_first());
        assert forall|i: int| 0 <= i < word_len(s) implies !white_space(#[trigger] s[i]) by {
            if i > 0 {
                assert(s[i] == s.drop_first()[i - 1]);
            }
        }
    }
}

proof fn lemma_trim_start_len(s: Seq<char>)
    ensures
        trim_start(s).len() <= s.len(),
    decreases s.len(),
{
    if s.len() > 0 && white_space(s[0]) {
        lemma_trim_start_len(s.drop_first());
    }
}

/// The runs of characters between white space.
pub open spec fn words(s: Seq<char>) -> Seq<Seq<char>>
    decreases s.len(),
    via words_decreases
{
    let t = trim_start(s);
    if t.len() == 0 {
        seq![]
    } else {
        seq![t.take(word_len(t))] + words(t.skip(word_len(t)))
    }
}

#[via_fn]
proof fn words_decreases(s: Seq<char>) {
    let t = trim_start(s);
    lemma_trim_start_len(s);
    lemma_trim_start_head(s);
    lemma_word_len(t);
    if t.len() > 0 {
        lemma_word_len(t.drop_first());
    }
}

/// Splits `s` into its words.
pub fn split_words(s: &str) -> (r: Vec<String>)
    ensures
        text::views(r@) == words(s@),
{
    let v = chars_of(s);
    let mut out: Vec<String> = Vec::new();
    let mut at = skip_white(&v, 0);
    assert(s@.skip(0) =~= s@);
    proof {
        let t = s@.skip(at as int);
        assert(trim_start(t) == t);
        assert(words(t) == words(s@));
    }
    assert(text::views(out@) + words(s@) =~= words(s@));
    while at < v.len()
        invariant
            v@ == s@,
            at <= v@.len(),
            at < v@.len() ==> !white_space(v@[at as int]),
            words(s@) == text::views(out@) + words(s@.skip(at as int)),
        decreases v@.len() - at,
    {
        let ghost t = s@.skip(at as int);
        let ghost before = out@;
        let mut end: usize = at;
        while end < v.len() && !is_white_space(v[end])
            invariant
                at <= end <= v@.len(),
                word_len(v@.skip(at as int)) == (end - at) + word_len(v@.skip(end as int)),
            decreases v@.len() - end,
        {
            assert(v@.skip(end as int).drop_first() =~= v@.skip(end + 1));
            end = end + 1;
        }
        assert(word_len(t) == end - at);
        let w = string_of(&v, at, end);
        assert(w@ =~= t.take(end - at));
        assert(t.skip(end - at) =~= s@.skip(end as int));
        assert(trim_start(t) == t);
        assert(words(t) == seq![w@] + words(s@.skip(end as int)));
        out.push(w);
        assert(text::views(out@) =~= text::views(before).push(w@));
        let next = skip_white(&v, end);
        proof {
            let u = s@.skip(next as int);
            assert(trim_start(u) == u);
            assert(words(s@.skip(end as int)) == words(u));
        }
        at = next;
        assert(text::views(out@) + words(s@.skip(at as int)) =~= text::views(before) + (seq![w@]
            + words(s@.skip(at as int))));
    }
    assert(words(s@.skip(at as int)) =~= seq![]);
    assert(text::views(out@) + Seq::<Seq<char>>::empty() =~= text::views(out@));
    out
}

// ---------------------------------------------------------------------------------------------
// Lines
// ---------------------------------------------------------------------------------------------

/// `s` without one trailing carriage return.
pub open spec fn without_return(s: Seq<char>) -> Seq<char> {
    if s.len() > 0 && s.last() == '\r' {
        s.drop_last()
    } else {
        s
    }
}

/// The lines of `s`: a line ends at a line feed, or at a carriage return and a line feed, and
/// the last one needs no end.
pub open spec fn lines(s: Seq<char>) -> Seq<Seq<char>>
    decreases s.len(),
{
    if s.len() == 0 {
        seq![]
    } else {
        match search::find(s, seq!['\n']) {
            Some(i) => if 0 <= i < s.len() {
                seq![without_return(s.take(i))] + lines(s.skip(i + 1))
            } else {
                seq![s]
            },
            None => seq![s],
        }
    }
}

/// Splits `s` into its lines.
pub fn split_lines(s: &str) -> (r: Vec<String>)
    ensures
        text::views(r@) == lines(s@),
{
    let v = chars_of(s);
    let mut q: Vec<char> = Vec::new();
    q.push('\n');
    assert(q@ =~= seq!['\n']);
    let mut out: Vec<String> = Vec::new();
    let mut at: usize = 0;
    assert(s@.skip(0) =~= s@);
    assert(text::views(out@) + lines(s@) =~= lines(s@));
    while at < v.len()
        invariant
            v@ == s@,
            q@ == seq!['\n'],
            at <= v.len(),
            lines(s@) == text::views(out@) + lines(s@.skip(at as int)),
        decreases v@.len() - at,
    {
        let ghost rest = s@.skip(at as int);
        let ghost before = out@;
        proof {
            search::lemma_find_skip(s@, q@, at as int, 0);
        }
        match index_from(&v, &q, at) {
            Some(i) => {
                proof {
                    search::lemma_find_from(s@, q@, at as int);
                }
                let mut end: usize = i;
                assert(v@.subrange(at as int, i as int) =~= rest.take(i - at));
                if at < i && v[i - 1] == '\r' {
                    end = i - 1;
                    assert(v@.subrange(at as int, i - 1) =~= rest.take(i - at).drop_last());
                }
                let part = string_of(&v, at, end);
                assert(part@ == without_return(rest.take(i - at)));
                assert(rest.skip(i - at + 1) =~= s@.skip(i + 1));
                out.push(part);
                assert(text::views(out@) =~= text::views(before).push(part@));
                at = i + 1;
                assert(text::views(out@) + lines(s@.skip(at as int)) =~= text::views(before) + (
                seq![part@] + lines(s@.skip(at as int))));
            },
            None => {
                let part = string_of(&v, at, v.len());
                assert(part@ =~= rest);
                out.push(part);
                assert(text::views(out@) =~= text::views(before) + seq![part@]);
                return out;
            },
        }
    }
    assert(text::views(out@) + Seq::<Seq<char>>::empty() =~= text::views(out@));
    out
}

/// The first `n` lines, or all of them where there are fewer.
pub open spec fn first_lines(ls: Seq<Seq<char>>, n: int) -> Seq<Seq<char>> {
    if ls.len() <= n {
        ls
    } else {
        ls.take(n)
    }
}

} // verus!
