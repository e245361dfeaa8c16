//! The query part of a request's address.

use vstd::prelude::*;

use crate::charset;
use crate::charset::is_valid_pathspec;
use crate::lines;
use crate::lines::split_words;
use crate::percent;
use crate::percent::percent_decode;
use crate::search;
use crate::search::{cut, cut_once};
use crate::text;
use crate::text::same_text;

verus! {

/// The pairs of a query, in order: those of its parts that hold `=`, each value decoded.
pub open spec fn query_pairs(parts: Seq<Seq<char>>) -> Seq<(Seq<char>, Seq<char>)>
    decreases parts.len(),
{
    if parts.len() == 0 {
        seq![]
    } else {
        let before = query_pairs(parts.drop_last());
        match search::split_once(parts.last(), "="@) {
            Some(p) => before.push(
                (p.0, percent::percent_decoded(vstd::utf8::encode_utf8(p.1))),
            ),
            None => before,
        }
    }
}

/// The value of a key: that of the last pair that has it.
pub open spec fn value(pairs: Seq<(Seq<char>, Seq<char>)>, key: Seq<char>) -> Option<Seq<char>>
    decreases pairs.len(),
{
    if pairs.len() == 0 {
        None
    } else if pairs.last().0 == key {
        Some(pairs.last().1)
    } else {
        value(pairs.drop_last(), key)
    }
}

/// The parameters of a request.
#[derive(Debug)]
pub struct QueryParams {
    pairs: Vec<(String, String)>,
}

/// What pairs of strings hold.
pub open spec fn pair_texts(v: Seq<(String, String)>) -> Seq<(Seq<char>, Seq<char>)> {
    Seq::new(v.len(), |i: int| (v[i].0@, v[i].1@))
}

impl View for QueryParams {
    type V = Seq<(Seq<char>, Seq<char>)>;

    closed spec fn view(&self) -> Seq<(Seq<char>, Seq<char>)> {
        pair_texts(self.pairs@)
    }
}

impl QueryParams {
    /// The value of a parameter.
    pub fn get(&self, key: &str) -> (r: Option<&str>)
        ensures
            text::opt_str_view(r) == value(self@, key@),
    {
        let ghost all = self@;
        let mut i: usize = self.pairs.len();
        assert(all.take(i as int) =~= all);
        while i > 0
            invariant
                i <= self.pairs@.len(),
                all == pair_texts(self.pairs@),
                value(all, key@) == value(all.take(i as int), key@),
            decreases i,
        {
            let ghost part = all.take(i as int);
            assert(part.last() == (self.pairs@[i - 1].0@, self.pairs@[i - 1].1@));
            assert(part.drop_last() =~= all.take(i - 1));
            if same_text(self.pairs[i - 1].0.as_str(), key) {
                return Some(self.pairs[i - 1].1.as_str());
            }
            i = i - 1;
        }
        None
    }
}

/// The parameters of a query such as `from=a&to=b`.
pub fn parse_query(query: &str) -> (r: QueryParams)
    ensures
        r@ == query_pairs(search::split(query@, "&"@)),
{
    proof {
        reveal_strlit("&");
    }
    let parts = cut(query, "&");
    let ghost ps = search::split(query@, "&"@);
    let mut pairs: Vec<(String, String)> = Vec::new();
    let mut i: usize = 0;
    assert(ps.take(0) =~= seq![]);
    assert(pair_texts(pairs@) =~= seq![]);
    while i < parts.len()
        invariant
            text::views(parts@) == ps,
            i <= parts@.len(),
            pair_texts(pairs@) == query_pairs(ps.take(i as int)),
        decreases parts@.len() - i,
    {
        let ghost before = pair_texts(pairs@);
        assert(ps.take(i + 1).drop_last() =~= ps.take(i as int));
        assert(ps.take(i + 1).last() == parts@[i as int]@);
        match cut_once(parts[i].as_str(), "=") {
            Some((k, v)) => {
                let decoded = percent_decode(v.as_str());
                let ghost e = (k@, decoded@);
                pairs.push((k, decoded));
                assert(pair_texts(pairs@) =~= before.push(e));
            },
            None => {},
        }
        i = i + 1;
    }
    assert(parts@.len() == ps.len());
    assert(ps.take(i as int) =~= ps);
    QueryParams { pairs }
}

/// Those of the given words that can be handed on as path patterns.
pub open spec fn pathspecs_of(words: Seq<Seq<char>>) -> Seq<Seq<char>>
    decreases words.len(),
{
    if words.len() == 0 {
        seq![]
    } else {
        let before = pathspecs_of(words.drop_last());
        if charset::valid_pathspec(words.last()) {
            before.push(words.last())
        } else {
            before
        }
    }
}

/// The path patterns of a filter.
pub open spec fn filter_pathspecs(filter: Seq<char>) -> Seq<Seq<char>> {
    pathspecs_of(lines::words(filter))
}

/// Splits a filter such as `*.cpp *.h` into path patterns. Words with characters that have no
/// place in a pattern are left out.
pub fn parse_pathspec(filter: &str) -> (r: Vec<String>)
    ensures
        text::views(r@) == filter_pathspecs(filter@),
{
    let words = split_words(filter);
    let ghost ws = lines::words(filter@);
    let mut out: Vec<String> = Vec::new();
    let mut i: usize = 0;
    assert(ws.take(0) =~= seq![]);
    assert(text::views(out@) =~= seq![]);
    while i < words.len()
        invariant
            text::views(words@) == ws,
            i <= words@.len(),
            text::views(out@) == pathspecs_of(ws.take(i as int)),
        decreases words@.len() - i,
    {
        let ghost before = text::views(out@);
        assert(ws.take(i + 1).drop_last() =~= ws.take(i as int));
        assert(ws.take(i + 1).last() == words@[i as int]@);
        if is_valid_pathspec(words[i].as_str()) {
            out.push(words[i].clone());
            assert(text::views(out@) =~= before.push(words@[i as int]@));
        }
        i = i + 1;
    }
    assert(words@.len() == ws.len());
    assert(ws.take(i as int) =~= ws);
    out
}

/// Every path pattern that a filter yields is valid.
pub proof fn law_pathspecs_are_valid(filter: Seq<char>, i: int)
    requires
        0 <= i < filter_pathspecs(filter).len(),
    ensures
        charset::valid_pathspec(filter_pathspecs(filter)[i]),
{
    lemma_pathspecs_valid(lines::words(filter), i);
}

proof fn lemma_pathspecs_valid(words: Seq<Seq<char>>, i: int)
    requires
        0 <= i < pathspecs_of(words).len(),
    ensures
        charset::valid_pathspec(pathspecs_of(words)[i]),
    decreases words.len(),
{
    let before = pathspecs_of(words.drop_last());
    if i < before.len() {
        lemma_pathspecs_valid(words.drop_last(), i);
    }
}

/// The last pair with a key gives its value, and has no part in that of another key.
pub proof fn law_last_pair_wins(
    pairs: Seq<(Seq<char>, Seq<char>)>,
    key: Seq<char>,
    v: Seq<char>,
    other: Seq<char>,
)
    ensures
        value(pairs.push((key, v)), key) == Some(v),
        other != key ==> value(pairs.push((key, v)), other) == value(pairs, other),
{
    assert(pairs.push((key, v)).drop_last() =~= pairs);
}

/// The patterns of a filter are its words that are valid patterns, all of them and in their order.
pub proof fn law_every_valid_pattern_is_kept(filter: Seq<char>)
    ensures
        filter_pathspecs(filter) == lines::words(filter).filter(
            |w: Seq<char>| charset::valid_pathspec(w),
        ),
{
    lemma_pathspecs_filter(lines::words(filter));
}

proof fn lemma_pathspecs_filter(words: Seq<Seq<char>>)
    ensures
        pathspecs_of(words) == words.filter(|w: Seq<char>| charset::valid_pathspec(w)),
    decreases words.len(),
{
    reveal(Seq::filter);
    if words.len() > 0 {
        lemma_pathspecs_filter(words.drop_last());
    }
}

} // verus!
