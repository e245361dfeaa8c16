//! Ordered sets of names, and of pairs of names, without repetition.

use vstd::prelude::*;

use crate::text;
use crate::text::{comes_before, same_text};

verus! {

/// The names stand in ascending order, and none stands twice.
pub open spec fn ascending(s: Seq<Seq<char>>) -> bool {
    forall|i: int, j: int| 0 <= i < j < s.len() ==> text::text_less(s[i], s[j])
}

/// `s` with `t` at its place in the order, unless it is there already.
pub open spec fn with_name(s: Seq<Seq<char>>, t: Seq<char>) -> Seq<Seq<char>>
    decreases s.len(),
{
    if s.len() == 0 {
        seq![t]
    } else if s[0] == t {
        s
    } else if text::text_less(t, s[0]) {
        seq![t] + s
    } else {
        seq![s[0]] + with_name(s.drop_first(), t)
    }
}

/// Putting a name in keeps the order, adds that name and nothing else.
pub proof fn lemma_with_name(s: Seq<Seq<char>>, t: Seq<char>)
    requires
        ascending(s),
    ensures
        ascending(with_name(s, t)),
        forall|x: Seq<char>| #[trigger] with_name(s, t).contains(x) <==> s.contains(x) || x == t,
    decreases s.len(),
{
    let r = with_name(s, t);
    if s.len() == 0 {
        assert(r[0] == t);
    } else if s[0] == t {
        assert(s.contains(t));
    } else if text::text_less(t, s[0]) {
        assert forall|i: int, j: int| 0 <= i < j < r.len() implies text::text_less(r[i], r[j]) by {
            if i == 0 && j > 1 {
                text::lemma_text_less_transitive(t, s[0], s[j - 1]);
            }
        }
        assert(r[0] == t);
        assert forall|x: Seq<char>| s.contains(x) implies #[trigger] r.contains(x) by {
            let k = choose|k: int| 0 <= k < s.len() && s[k] == x;
            assert(r[k + 1] == x);
        }
    } else {
        let rest = s.drop_first();
        assert(forall|i: int| 0 <= i < rest.len() ==> rest[i] == s[i + 1]);
        lemma_with_name(rest, t);
        text::lemma_text_less_total(s[0], t);
        let tail = with_name(rest, t);
        assert(r =~= seq![s[0]] + tail);
        assert forall|i: int, j: int| 0 <= i < j < r.len() implies text::text_less(r[i], r[j]) by {
            if i == 0 {
                assert(tail.contains(tail[j - 1]));
                if tail[j - 1] != t {
                    let k = choose|k: int| 0 <= k < rest.len() && rest[k] == tail[j - 1];
                    assert(s[k + 1] == tail[j - 1]);
                }
            }
        }
        assert forall|x: Seq<char>| #[trigger] r.contains(x) <==> s.contains(x) || x == t by {
            if r.contains(x) {
                let k = choose|k: int| 0 <= k < r.len() && r[k] == x;
                if k > 0 {
                    assert(tail[k - 1] == x);
                    assert(tail.contains(x));
                    if x != t {
                        let m = choose|m: int| 0 <= m < rest.len() && rest[m] == x;
                        assert(s[m + 1] == x);
                    }
                } else {
                    assert(s[0] == x);
                }
            }
            if s.contains(x) {
                let k = choose|k: int| 0 <= k < s.len() && s[k] == x;
                if k > 0 {
                    assert(rest[k - 1] == x);
                    assert(tail.contains(x));
                    let m = choose|m: int| 0 <= m < tail.len() && tail[m] == x;
                    assert(r[m + 1] == x);
                } else {
                    assert(r[0] == x);
                }
            }
            if x == t {
                assert(tail.contains(x));
                let m = choose|m: int| 0 <= m < tail.len() && tail[m] == x;
                assert(r[m + 1] == x);
            }
        }
    }
}

/// Every name of `with_name` is the one put in or was there.
pub proof fn lemma_with_name_holds(s: Seq<Seq<char>>, t: Seq<char>, k: int)
    requires
        0 <= k < with_name(s, t).len(),
    ensures
        with_name(s, t)[k] == t || s.contains(with_name(s, t)[k]),
    decreases s.len(),
{
    let r = with_name(s, t);
    if s.len() > 0 && s[0] != t && !text::text_less(t, s[0]) {
        let rest = s.drop_first();
        if k > 0 {
            lemma_with_name_holds(rest, t, k - 1);
            if rest.contains(r[k]) {
                let j = choose|j: int| 0 <= j < rest.len() && rest[j] == r[k];
                assert(s[j + 1] == r[k]);
            }
        } else {
            assert(s[0] == r[k]);
        }
    } else if s.len() > 0 && s[0] != t && k > 0 {
        assert(s[k - 1] == r[k]);
    }
}

/// It does not matter in which order two names are put in.
pub proof fn law_names_go_in_in_any_order(s: Seq<Seq<char>>, a: Seq<char>, b: Seq<char>)
    requires
        ascending(s),
    ensures
        with_name(with_name(s, a), b) == with_name(with_name(s, b), a),
{
    lemma_with_name(s, a);
    lemma_with_name(s, b);
    lemma_with_name(with_name(s, a), b);
    lemma_with_name(with_name(s, b), a);
    lemma_ascending_unique(with_name(with_name(s, a), b), with_name(with_name(s, b), a));
}

/// Where a name stands in an ascending sequence, `with_name` changes nothing; where it does not,
/// it goes in front of the first name that comes after it.
proof fn lemma_with_name_at(s: Seq<Seq<char>>, t: Seq<char>, i: int)
    requires
        0 <= i <= s.len(),
        ascending(s),
        forall|j: int| 0 <= j < i ==> text::text_less(#[trigger] s[j], t),
        i < s.len() ==> s[i] == t || text::text_less(t, s[i]),
    ensures
        i < s.len() && s[i] == t ==> with_name(s, t) == s,
        !(i < s.len() && s[i] == t) ==> with_name(s, t) == s.insert(i, t),
    decreases s.len(),
{
    if s.len() == 0 {
        assert(with_name(s, t) =~= s.insert(i, t));
    } else if i == 0 {
        if s[0] != t {
            assert(with_name(s, t) =~= s.insert(0, t));
        }
    } else {
        let rest = s.drop_first();
        assert(text::text_less(s[0], t));
        text::lemma_text_less_irreflexive(t);
        if text::text_less(t, s[0]) {
            text::lemma_text_less_transitive(t, s[0], t);
        }
        assert(forall|k: int| 0 <= k < rest.len() ==> rest[k] == s[k + 1]);
        lemma_with_name_at(rest, t, i - 1);
        if i < s.len() && s[i] == t {
            assert(with_name(s, t) =~= s);
        } else {
            assert(with_name(s, t) =~= s.insert(i, t));
        }
    }
}

/// Two ascending sequences with the same names are the same.
pub proof fn lemma_ascending_unique(a: Seq<Seq<char>>, b: Seq<Seq<char>>)
    requires
        ascending(a),
        ascending(b),
        forall|x: Seq<char>| #[trigger] a.contains(x) <==> b.contains(x),
    ensures
        a == b,
    decreases a.len(),
{
    if a.len() == 0 {
        if b.len() > 0 {
            assert(b.contains(b[0]));
            assert(a.contains(b[0]));
        }
        assert(a =~= b);
    } else {
        assert(a.contains(a[0]));
        assert(b.contains(a[0]));
        let ka = choose|k: int| 0 <= k < b.len() && b[k] == a[0];
        assert(b.contains(b[0]));
        assert(a.contains(b[0]));
        let kb = choose|k: int| 0 <= k < a.len() && a[k] == b[0];
        if ka > 0 && kb > 0 {
            assert(text::text_less(b[0], a[0]));
            assert(text::text_less(a[0], b[0]));
            text::lemma_text_less_transitive(a[0], b[0], a[0]);
            text::lemma_text_less_irreflexive(a[0]);
        }
        assert(a[0] == b[0]);
        let x = a.drop_first();
        let y = b.drop_first();
        assert forall|t: Seq<char>| #[trigger] x.contains(t) <==> y.contains(t) by {
            if x.contains(t) {
                let k = choose|k: int| 0 <= k < x.len() && x[k] == t;
                assert(a[k + 1] == t);
                assert(a.contains(t));
                assert(b.contains(t));
                let m = choose|m: int| 0 <= m < b.len() && b[m] == t;
                assert(text::text_less(a[0], t));
                text::lemma_text_less_irreflexive(a[0]);
                assert(y[m - 1] == t);
            }
            if y.contains(t) {
                let k = choose|k: int| 0 <= k < y.len() && y[k] == t;
                assert(b[k + 1] == t);
                assert(b.contains(t));
                assert(a.contains(t));
                let m = choose|m: int| 0 <= m < a.len() && a[m] == t;
                assert(text::text_less(b[0], t));
                text::lemma_text_less_irreflexive(b[0]);
                assert(x[m - 1] == t);
            }
        }
        lemma_ascending_unique(x, y);
        assert(a =~= seq![a[0]] + x);
        assert(b =~= seq![b[0]] + y);
    }
}

/// A set of names, kept in ascending order.
#[derive(Debug)]
pub struct NameSet {
    names: Vec<String>,
}

impl View for NameSet {
    type V = Seq<Seq<char>>;

    closed spec fn view(&self) -> Seq<Seq<char>> {
        text::views(self.names@)
    }
}

impl NameSet {
    #[verifier::type_invariant]
    pub(crate) open spec fn ordered(&self) -> bool {
        ascending(self@)
    }

    /// A set with no names.
    pub fn new() -> (r: Self)
        ensures
            r@ == Seq::<Seq<char>>::empty(),
    {
        let names: Vec<String> = Vec::new();
        assert(text::views(names@) =~= seq![]);
        NameSet { names }
    }

    /// The number of names, which stand in ascending order.
    pub fn len(&self) -> (r: usize)
        ensures
            r == self@.len(),
            ascending(self@),
    {
        proof {
            use_type_invariant(self);
        }
        self.names.len()
    }

    /// Whether there are no names.
    pub fn is_empty(&self) -> (r: bool)
        ensures
            r == (self@.len() == 0),
    {
        self.names.len() == 0
    }

    /// The name at place `i` of the order.
    pub fn get(&self, i: usize) -> (r: &str)
        requires
            i < self@.len(),
        ensures
            r@ == self@[i as int],
    {
        self.names[i].as_str()
    }

    /// Puts a name in.
    pub fn insert(&mut self, name: String)
        ensures
            final(self)@ == with_name(old(self)@, name@),
            ascending(old(self)@),
            ascending(final(self)@),
    {
        proof {
            use_type_invariant(&*self);
            lemma_with_name(self@, name@);
        }
        let ghost start = text::views(self.names@);
        let mut i: usize = 0;
        while i < self.names.len() && comes_before(self.names[i].as_str(), name.as_str())
            invariant
                i <= self.names@.len(),
                *self == *old(self),
                start == text::views(self.names@),
                ascending(start),
                forall|j: int| 0 <= j < i ==> text::text_less(#[trigger] start[j], name@),
            decreases self.names@.len() - i,
        {
            i = i + 1;
        }
        proof {
            if i < start.len() {
                text::lemma_text_less_total(start[i as int], name@);
            }
            lemma_with_name_at(start, name@, i as int);
        }
        if i < self.names.len() && same_text(self.names[i].as_str(), name.as_str()) {
            return ;
        }
        let mut names: Vec<String> = Vec::new();
        std::mem::swap(&mut names, &mut self.names);
        names.insert(i, name);
        assert(text::views(names@) =~= start.insert(i as int, name@));
        self.names = names;
    }
}

// ---------------------------------------------------------------------------------------------
// Pairs
// ---------------------------------------------------------------------------------------------

/// The order of pairs: the first name decides, and the second where the first ones are equal.
pub open spec fn pair_less(a: (Seq<char>, Seq<char>), b: (Seq<char>, Seq<char>)) -> bool {
    text::text_less(a.0, b.0) || (a.0 == b.0 && text::text_less(a.1, b.1))
}

/// `s` with the pair `t` at its place in the order, unless it is there already.
pub open spec fn with_pair(s: Seq<(Seq<char>, Seq<char>)>, t: (Seq<char>, Seq<char>)) -> Seq<
    (Seq<char>, Seq<char>),
>
    decreases s.len(),
{
    if s.len() == 0 {
        seq![t]
    } else if s[0] == t {
        s
    } else if pair_less(t, s[0]) {
        seq![t] + s
    } else {
        seq![s[0]] + with_pair(s.drop_first(), t)
    }
}

/// The pairs of texts that a sequence of pairs of strings holds.
pub open spec fn pair_views(v: Seq<(String, String)>) -> Seq<(Seq<char>, Seq<char>)> {
    Seq::new(v.len(), |i: int| (v[i].0@, v[i].1@))
}

/// Puts a pair at its place in the order, unless it is there already.
pub fn insert_pair(pairs: &mut Vec<(String, String)>, first: String, second: String)
    ensures
        pair_views(final(pairs)@) == with_pair(pair_views(old(pairs)@), (first@, second@)),
{
    let ghost s = pair_views(pairs@);
    let ghost t = (first@, second@);
    let mut i: usize = 0;
    assert(s.take(0) + with_pair(s.skip(0), t) =~= with_pair(s, t)) by {
        assert(s.skip(0) =~= s);
    }
    while i < pairs.len()
        invariant
            i <= pairs@.len(),
            pairs@ == old(pairs)@,
            s == pair_views(pairs@),
            t == (first@, second@),
            with_pair(s, t) == s.take(i as int) + with_pair(s.skip(i as int), t),
        decreases pairs@.len() - i,
    {
        let ghost rest = s.skip(i as int);
        let same_first = same_text(first.as_str(), pairs[i].0.as_str());
        if same_first && same_text(second.as_str(), pairs[i].1.as_str()) {
            assert(s.take(i as int) + rest =~= s);
            return ;
        }
        if comes_before(first.as_str(), pairs[i].0.as_str()) || (same_first && comes_before(
            second.as_str(),
            pairs[i].1.as_str(),
        )) {
            pairs.insert(i, (first, second));
            assert(pair_views(pairs@) =~= s.take(i as int) + (seq![t] + rest));
            return ;
        }
        assert(rest.drop_first() =~= s.skip(i + 1));
        assert(s.take(i as int) + (seq![rest[0]] + with_pair(s.skip(i + 1), t)) =~= s.take(i + 1)
            + with_pair(s.skip(i + 1), t));
        i = i + 1;
    }
    pairs.push((first, second));
    assert(pair_views(pairs@) =~= s.take(i as int) + seq![t]);
}

} // verus!
