//! Finding a text within another, and what is built on it: splitting, replacing and joining.

use vstd::prelude::*;

use crate::text;
use crate::text::{chars_of, matches_at, string_of};

verus! {

/// The first index from `from` on at which `p` stands in `s`.
pub open spec fn find_from(s: Seq<char>, p: Seq<char>, from: int) -> Option<int>
    decreases s.len() - from + 1,
{
    if from < 0 || from + p.len() > s.len() {
        None
    } else if text::occurs_at(s, p, from) {
        Some(from)
    } else {
        find_from(s, p, from + 1)
    }
}

/// The first index at which `p` stands in `s`.
pub open spec fn find(s: Seq<char>, p: Seq<char>) -> Option<int> {
    find_from(s, p, 0)
}

/// The last index up to `upto` at which `p` stands in `s`.
pub open spec fn rfind_upto(s: Seq<char>, p: Seq<char>, upto: int) -> Option<int>
    decreases upto + 1,
{
    if upto < 0 {
        None
    } else if text::occurs_at(s, p, upto) {
        Some(upto)
    } else {
        rfind_upto(s, p, upto - 1)
    }
}

/// The last index at which `p` stands in `s`.
pub open spec fn rfind(s: Seq<char>, p: Seq<char>) -> Option<int> {
    rfind_upto(s, p, s.len() as int)
}

/// Whether `p` stands somewhere in `s`.
pub open spec fn contains_text(s: Seq<char>, p: Seq<char>) -> bool {
    exists|i: int| text::occurs_at(s, p, i)
}

/// A found index is an occurrence, and nothing between `from` and it is one.
pub proof fn lemma_find_from(s: Seq<char>, p: Seq<char>, from: int)
    requires
        0 <= from,
    ensures
        find_from(s, p, from) matches Some(i) ==> from <= i && text::occurs_at(s, p, i) && forall|j: int|
            from <= j < i ==> !text::occurs_at(s, p, j),
        find_from(s, p, from) is None ==> forall|j: int| from <= j ==> !text::occurs_at(s, p, j),
    decreases s.len() - from + 1,
{
    if from + p.len() <= s.len() && !text::occurs_at(s, p, from) {
        lemma_find_from(s, p, from + 1);
    }
}

/// A text stands in another exactly where the search finds it.
pub proof fn lemma_find_contains(s: Seq<char>, p: Seq<char>)
    ensures
        find(s, p) is Some == contains_text(s, p),
{
    lemma_find_from(s, p, 0);
}

/// The last occurrence is an occurrence, and none comes after it.
pub proof fn lemma_rfind_upto(s: Seq<char>, p: Seq<char>, upto: int)
    ensures
        rfind_upto(s, p, upto) matches Some(i) ==> i <= upto && text::occurs_at(s, p, i) && forall|j: int|
            i < j <= upto ==> !text::occurs_at(s, p, j),
        rfind_upto(s, p, upto) is None ==> forall|j: int| j <= upto ==> !text::occurs_at(s, p, j),
    decreases upto + 1,
{
    if upto >= 0 && !text::occurs_at(s, p, upto) {
        lemma_rfind_upto(s, p, upto - 1);
    }
}

/// Searching `s` from index `from` on is searching what follows that index.
pub proof fn lemma_find_skip(s: Seq<char>, p: Seq<char>, at: int, from: int)
    requires
        0 <= at <= s.len(),
        0 <= from,
    ensures
        find_from(s, p, at + from) == (match find_from(s.skip(at), p, from) {
            Some(i) => Some(at + i),
            None => None::<int>,
        }),
    decreases s.len() - at - from + 1,
{
    if at + from + p.len() <= s.len() {
        assert(s.skip(at).subrange(from, from + p.len()) =~= s.subrange(
            at + from,
            at + from + p.len(),
        ));
        if !text::occurs_at(s, p, at + from) {
            lemma_find_skip(s, p, at, from + 1);
        }
    }
}

/// The first index from `from` on at which `p` stands in `v`.
pub fn index_from(v: &Vec<char>, p: &Vec<char>, from: usize) -> (r: Option<usize>)
    requires
        from <= v@.len(),
    ensures
        r is Some == find_from(v@, p@, from as int) is Some,
        r matches Some(i) ==> find_from(v@, p@, from as int) == Some(i as int) && i + p@.len()
            <= v.len(),
{
    let mut at: usize = from;
    while at <= v.len() && p.len() <= v.len() - at
        invariant
            from <= at <= v.len() + 1,
            at + p.len() <= v.len() + 1 || at == from,
            find_from(v@, p@, from as int) == find_from(v@, p@, at as int),
        decreases v@.len() + 1 - at,
    {
        if matches_at(v, p, at) {
            return Some(at);
        }
        if at == v.len() {
            assert(find_from(v@, p@, at + 1) is None);
            return None;
        }
        at = at + 1;
    }
    None
}

/// The first index at which `p` stands in `s`, counted in characters.
pub fn index_of(s: &str, p: &str) -> (r: Option<usize>)
    ensures
        r is Some == find(s@, p@) is Some,
        r matches Some(i) ==> find(s@, p@) == Some(i as int) && i + p@.len() <= s@.len(),
{
    index_from(&chars_of(s), &chars_of(p), 0)
}

/// The last index at which `p` stands in `s`, counted in characters.
pub fn last_index_of(s: &str, p: &str) -> (r: Option<usize>)
    ensures
        r is Some == rfind(s@, p@) is Some,
        r matches Some(i) ==> rfind(s@, p@) == Some(i as int) && i + p@.len() <= s@.len(),
{
    let v = chars_of(s);
    let q = chars_of(p);
    let mut at: usize = v.len();
    while !matches_at(&v, &q, at)
        invariant
            v@ == s@,
            q@ == p@,
            at <= v@.len(),
            rfind(s@, p@) == rfind_upto(s@, p@, at as int),
        decreases at,
    {
        if at == 0 {
            assert(rfind_upto(s@, p@, -1) is None);
            return None;
        }
        at = at - 1;
    }
    Some(at)
}

/// Whether `p` stands somewhere in `s`.
pub fn has_text(s: &str, p: &str) -> (r: bool)
    ensures
        r == contains_text(s@, p@),
{
    proof {
        lemma_find_contains(s@, p@);
    }
    index_of(s, p).is_some()
}

// ---------------------------------------------------------------------------------------------
// Splitting
// ---------------------------------------------------------------------------------------------

/// What stands before and after the first `p` in `s`.
pub open spec fn split_once(s: Seq<char>, p: Seq<char>) -> Option<(Seq<char>, Seq<char>)> {
    match find(s, p) {
        Some(i) => Some((s.take(i), s.skip(i + p.len()))),
        None => None,
    }
}

/// What stands between the occurrences of `p` in `s`, taken from the left.
pub open spec fn split(s: Seq<char>, p: Seq<char>) -> Seq<Seq<char>>
    decreases s.len(),
{
    match find(s, p) {
        Some(i) => if p.len() > 0 && 0 <= i && i + p.len() <= s.len() {
            seq![s.take(i)] + split(s.skip(i + p.len()), p)
        } else {
            seq![s]
        },
        None => seq![s],
    }
}

/// As `split`, but with at most `n` parts: the last one holds the rest.
pub open spec fn split_at_most(s: Seq<char>, n: nat, p: Seq<char>) -> Seq<Seq<char>>
    decreases n,
{
    if n == 0 {
        seq![]
    } else if n == 1 {
        seq![s]
    } else {
        match find(s, p) {
            Some(i) => seq![s.take(i)] + split_at_most(s.skip(i + p.len()), (n - 1) as nat, p),
            None => seq![s],
        }
    }
}

/// Splits `s` at the first `p`.
pub fn cut_once(s: &str, p: &str) -> (r: Option<(String, String)>)
    ensures
        r is Some == split_once(s@, p@) is Some,
        r matches Some(x) ==> split_once(s@, p@) == Some((x.0@, x.1@)),
{
    let v = chars_of(s);
    let q = chars_of(p);
    match index_from(&v, &q, 0) {
        Some(i) => {
            let a = string_of(&v, 0, i);
            let b = string_of(&v, i + q.len(), v.len());
            assert(a@ =~= s@.take(i as int));
            assert(b@ =~= s@.skip(i + p@.len()));
            Some((a, b))
        },
        None => None,
    }
}

/// Splits `s` at every `p`.
pub fn cut(s: &str, p: &str) -> (r: Vec<String>)
    requires
        p@.len() > 0,
    ensures
        text::views(r@) == split(s@, p@),
{
    let v = chars_of(s);
    let q = chars_of(p);
    let mut out: Vec<String> = Vec::new();
    let mut at: usize = 0;
    assert(s@.skip(0) =~= s@);
    assert(text::views(out@) + split(s@, p@) =~= split(s@, p@));
    loop
        invariant
            v@ == s@,
            q@ == p@,
            q@.len() > 0,
            at <= v.len(),
            split(s@, p@) == text::views(out@) + split(s@.skip(at as int), p@),
        decreases v@.len() - at,
    {
        let ghost rest = s@.skip(at as int);
        let ghost before = out@;
        proof {
            lemma_find_skip(s@, p@, at as int, 0);
        }
        match index_from(&v, &q, at) {
            Some(i) => {
                proof {
                    lemma_find_from(s@, p@, at as int);
                }
                let part = string_of(&v, at, i);
                assert(part@ =~= rest.take(i - at));
                assert(rest.skip(i - at + p@.len()) =~= s@.skip(i + p@.len()));
                out.push(part);
                assert(text::views(out@) =~= text::views(before).push(part@));
                at = i + q.len();
                assert(split(rest, p@) == seq![part@] + split(s@.skip(at as int), p@));
                assert(text::views(out@) + split(s@.skip(at as int), p@) =~= text::views(before) + (seq![part@]
                    + split(s@.skip(at as int), p@)));
            },
            None => {
                let part = string_of(&v, at, v.len());
                assert(part@ =~= rest);
                out.push(part);
                assert(text::views(out@) =~= text::views(before) + seq![part@]);
                return out;
            },
        }
    }
}

/// Splits `s` at `p` into at most `n` parts.
pub fn cut_at_most(s: &str, n: usize, p: &str) -> (r: Vec<String>)
    requires
        p@.len() > 0,
    ensures
        text::views(r@) == split_at_most(s@, n as nat, p@),
{
    let v = chars_of(s);
    let q = chars_of(p);
    let mut out: Vec<String> = Vec::new();
    let mut at: usize = 0;
    let mut left: usize = n;
    assert(s@.skip(0) =~= s@);
    assert(text::views(out@) + split_at_most(s@, n as nat, p@) =~= split_at_most(s@, n as nat, p@));
    while left > 0
        invariant
            v@ == s@,
            q@ == p@,
            at <= v.len(),
            split_at_most(s@, n as nat, p@) == text::views(out@) + split_at_most(
                s@.skip(at as int),
                left as nat,
                p@,
            ),
        decreases left,
    {
        let ghost rest = s@.skip(at as int);
        let ghost before = out@;
        proof {
            lemma_find_skip(s@, p@, at as int, 0);
        }
        let found: Option<usize> = if left == 1 {
            None
        } else {
            index_from(&v, &q, at)
        };
        match found {
            Some(i) => {
                proof {
                    lemma_find_from(s@, p@, at as int);
                }
                let part = string_of(&v, at, i);
                assert(part@ =~= rest.take(i - at));
                assert(rest.skip(i - at + p@.len()) =~= s@.skip(i + p@.len()));
                out.push(part);
                assert(text::views(out@) =~= text::views(before).push(part@));
                at = i + q.len();
                left = left - 1;
                assert(split_at_most(rest, (left + 1) as nat, p@) == seq![part@] + split_at_most(
                    s@.skip(at as int),
                    left as nat,
                    p@,
                ));
                assert(text::views(out@) + split_at_most(s@.skip(at as int), left as nat, p@)
                    =~= text::views(before) + (seq![part@] + split_at_most(
                    s@.skip(at as int),
                    left as nat,
                    p@,
                )));
            },
            None => {
                let part = string_of(&v, at, v.len());
                assert(part@ =~= rest);
                out.push(part);
                assert(text::views(out@) =~= text::views(before) + seq![part@]);
                return out;
            },
        }
    }
    assert(text::views(out@) + Seq::<Seq<char>>::empty() =~= text::views(out@));
    out
}

// ---------------------------------------------------------------------------------------------
// Replacing
// ---------------------------------------------------------------------------------------------

/// `s` with every `p`, taken from the left, replaced by `w`.
pub open spec fn replace(s: Seq<char>, p: Seq<char>, w: Seq<char>) -> Seq<char>
    decreases s.len(),
{
    match find(s, p) {
        Some(i) => if p.len() > 0 && 0 <= i && i + p.len() <= s.len() {
            s.take(i) + w + replace(s.skip(i + p.len()), p, w)
        } else {
            s
        },
        None => s,
    }
}

/// `s` with the first `p` replaced by `w`.
pub open spec fn replace_first(s: Seq<char>, p: Seq<char>, w: Seq<char>) -> Seq<char> {
    match find(s, p) {
        Some(i) => s.take(i) + w + s.skip(i + p.len()),
        None => s,
    }
}

/// Replaces every `p` in `s` by `w`.
pub fn substitute(s: &str, p: &str, w: &str) -> (r: String)
    requires
        p@.len() > 0,
    ensures
        r@ == replace(s@, p@, w@),
{
    let v = chars_of(s);
    let q = chars_of(p);
    let mut out = String::new();
    let mut at: usize = 0;
    assert(s@.skip(0) =~= s@);
    assert(out@ + replace(s@, p@, w@) =~= replace(s@, p@, w@));
    loop
        invariant
            v@ == s@,
            q@ == p@,
            q@.len() > 0,
            at <= v.len(),
            replace(s@, p@, w@) == out@ + replace(s@.skip(at as int), p@, w@),
        decreases v@.len() - at,
    {
        let ghost rest = s@.skip(at as int);
        let ghost before = out@;
        proof {
            lemma_find_skip(s@, p@, at as int, 0);
        }
        match index_from(&v, &q, at) {
            Some(i) => {
                proof {
                    lemma_find_from(s@, p@, at as int);
                }
                let part = string_of(&v, at, i);
                assert(part@ =~= rest.take(i - at));
                assert(rest.skip(i - at + p@.len()) =~= s@.skip(i + p@.len()));
                out.append(part.as_str());
                out.append(w);
                at = i + q.len();
                assert(out@ + replace(s@.skip(at as int), p@, w@) =~= before + (part@ + w@
                    + replace(s@.skip(at as int), p@, w@)));
            },
            None => {
                let part = string_of(&v, at, v.len());
                assert(part@ =~= rest);
                out.append(part.as_str());
                return out;
            },
        }
    }
}

/// Replaces the first `p` in `s` by `w`.
pub fn substitute_first(s: &str, p: &str, w: &str) -> (r: String)
    ensures
        r@ == replace_first(s@, p@, w@),
{
    match cut_once(s, p) {
        Some(x) => {
            let mut out = x.0;
            out.append(w);
            out.append(x.1.as_str());
            out
        },
        None => s.to_owned(),
    }
}

// ---------------------------------------------------------------------------------------------
// Joining
// ---------------------------------------------------------------------------------------------

/// The parts in order, with `sep` between each two.
pub open spec fn join(parts: Seq<Seq<char>>, sep: Seq<char>) -> Seq<char>
    decreases parts.len(),
{
    if parts.len() <= 1 {
        if parts.len() == 0 {
            seq![]
        } else {
            parts[0]
        }
    } else {
        join(parts.drop_last(), sep) + sep + parts.last()
    }
}

/// Joins the parts with `sep` between each two.
pub fn joined(parts: &Vec<String>, sep: &str) -> (r: String)
    ensures
        r@ == join(text::views(parts@), sep@),
{
    let mut out = String::new();
    let mut i: usize = 0;
    assert(text::views(parts@).take(0) =~= seq![]);
    while i < parts.len()
        invariant
            i <= parts@.len(),
            out@ == join(text::views(parts@).take(i as int), sep@),
        decreases parts@.len() - i,
    {
        let ghost next = text::views(parts@).take(i + 1);
        assert(next.drop_last() =~= text::views(parts@).take(i as int));
        if i > 0 {
            out.append(sep);
        }
        out.append(parts[i].as_str());
        if i == 0 {
            assert(out@ =~= next[0]);
        }
        i = i + 1;
    }
    assert(text::views(parts@).take(parts@.len() as int) =~= text::views(parts@));
    out
}

/// Where a text without `c` is followed by `c`, splitting at `c` takes it off.
pub proof fn lemma_split_head(a: Seq<char>, c: char, b: Seq<char>)
    requires
        !a.contains(c),
    ensures
        split(a + seq![c] + b, seq![c]) == seq![a] + split(b, seq![c]),
{
    let s = a + seq![c] + b;
    let p = seq![c];
    let n = a.len() as int;
    lemma_find_from(s, p, 0);
    assert(s.subrange(n, n + 1) =~= p);
    assert(text::occurs_at(s, p, n));
    assert forall|j: int| 0 <= j < n implies !text::occurs_at(s, p, j) by {
        if text::occurs_at(s, p, j) {
            assert(s.subrange(j, j + 1)[0] == c);
            assert(a[j] == c);
        }
    }
    assert(find(s, p) == Some(n));
    assert(s.take(n) =~= a);
    assert(s.skip(n + 1) =~= b);
}

/// A text without `c` is one part.
pub proof fn lemma_split_whole(a: Seq<char>, c: char)
    requires
        !a.contains(c),
    ensures
        split(a, seq![c]) == seq![a],
{
    let p = seq![c];
    lemma_find_from(a, p, 0);
    if find(a, p) is Some {
        let i = find(a, p).unwrap();
        assert(a.subrange(i, i + 1)[0] == c);
        assert(a[i] == c);
    }
}

/// Joining can be read from the front.
pub proof fn lemma_join_front(parts: Seq<Seq<char>>, sep: Seq<char>)
    requires
        parts.len() > 1,
    ensures
        join(parts, sep) == parts[0] + sep + join(parts.drop_first(), sep),
    decreases parts.len(),
{
    let rest = parts.drop_first();
    if parts.len() == 2 {
        assert(parts.drop_last()[0] == parts[0]);
        assert(join(parts.drop_last(), sep) == parts[0]);
        assert(join(rest, sep) == rest[0]);
    } else {
        lemma_join_front(parts.drop_last(), sep);
        assert(parts.drop_last().drop_first() =~= rest.drop_last());
        assert(join(rest, sep) == join(rest.drop_last(), sep) + sep + rest.last());
        assert(join(parts, sep) =~= parts[0] + sep + join(rest, sep));
    }
}

/// Splitting what was joined with a character that no part holds gives the parts back.
pub proof fn law_split_undoes_join(parts: Seq<Seq<char>>, c: char)
    requires
        parts.len() > 0,
        forall|i: int| 0 <= i < parts.len() ==> !(#[trigger] parts[i]).contains(c),
    ensures
        split(join(parts, seq![c]), seq![c]) == parts,
    decreases parts.len(),
{
    let sep = seq![c];
    if parts.len() == 1 {
        lemma_split_whole(parts[0], c);
        assert(parts =~= seq![parts[0]]);
    } else {
        let rest = parts.drop_first();
        lemma_join_front(parts, sep);
        assert(forall|i: int| 0 <= i < rest.len() ==> rest[i] == parts[i + 1]);
        law_split_undoes_join(rest, c);
        lemma_split_head(parts[0], c, join(rest, sep));
        assert(parts =~= seq![parts[0]] + rest);
    }
}

} // verus!
