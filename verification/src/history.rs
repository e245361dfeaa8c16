//! The commits of a repository, and which of them can be reached from which.

use vstd::prelude::*;

use crate::text;
use crate::text::{comes_before, same_text};

verus! {

/// A commit, as it is read from the repository. Its parents are places in the same history.
#[derive(Debug)]
pub struct CommitRecord {
    pub id: String,
    /// Whether the commit itself could be read. One that could not has no known parents.
    pub readable: bool,
    pub message: String,
    pub timestamp: i64,
    pub parents: Vec<usize>,
}

/// The parents of a commit that can be followed.
pub open spec fn followed(c: CommitRecord) -> Seq<usize> {
    if c.readable {
        c.parents@
    } else {
        seq![]
    }
}

/// The parents of each commit.
pub open spec fn parent_lists(commits: Seq<CommitRecord>) -> Seq<Seq<usize>> {
    Seq::new(commits.len(), |i: int| followed(commits[i]))
}

/// Every parent is a place in the history.
pub open spec fn in_range(ps: Seq<Seq<usize>>) -> bool {
    forall|i: int, k: int|
        0 <= i < ps.len() && 0 <= k < ps[i].len() ==> 0 <= #[trigger] ps[i][k] < ps.len()
}

/// No two commits have the same hash.
pub open spec fn distinct_ids(commits: Seq<CommitRecord>) -> bool {
    forall|i: int, j: int|
        0 <= i < j < commits.len() ==> #[trigger] commits[i].id@ != #[trigger] commits[j].id@
}

/// Whether `b` can be reached from `a` by following parents `steps` times.
pub open spec fn reaches_in(ps: Seq<Seq<usize>>, a: int, b: int, steps: nat) -> bool
    decreases steps,
{
    if steps == 0 {
        a == b
    } else {
        exists|k: int|
            0 <= a < ps.len() && 0 <= k < ps[a].len() && reaches_in(
                ps,
                #[trigger] ps[a][k] as int,
                b,
                (steps - 1) as nat,
            )
    }
}

/// Whether `b` is `a` or an ancestor of it.
pub open spec fn reaches(ps: Seq<Seq<usize>>, a: int, b: int) -> bool {
    exists|steps: nat| #[trigger] reaches_in(ps, a, b, steps)
}

/// Whether `a` descends from `b`: `b` is an ancestor of it, one step or more away.
pub open spec fn descends(ps: Seq<Seq<usize>>, a: int, b: int) -> bool {
    exists|steps: nat| steps > 0 && #[trigger] reaches_in(ps, a, b, steps)
}

/// Whether no commit is its own ancestor, as in every history that `git` has written.
pub open spec fn acyclic(ps: Seq<Seq<usize>>) -> bool {
    forall|a: int| !(#[trigger] descends(ps, a, a))
}

/// Every commit reaches itself.
pub proof fn lemma_reaches_self(ps: Seq<Seq<usize>>, a: int)
    ensures
        reaches(ps, a, a),
{
    assert(reaches_in(ps, a, a, 0));
}

/// What a parent reaches is an ancestor.
pub proof fn lemma_descends_parent(ps: Seq<Seq<usize>>, a: int, k: int, b: int)
    requires
        0 <= a < ps.len(),
        0 <= k < ps[a].len(),
        reaches(ps, ps[a][k] as int, b),
    ensures
        descends(ps, a, b),
        reaches(ps, a, b),
{
    let steps = choose|steps: nat| #[trigger] reaches_in(ps, ps[a][k] as int, b, steps);
    assert(reaches_in(ps, a, b, steps + 1));
}

/// To reach is to be the same or to descend.
pub proof fn lemma_reaches_cases(ps: Seq<Seq<usize>>, a: int, b: int)
    ensures
        reaches(ps, a, b) == (a == b || descends(ps, a, b)),
{
    if reaches(ps, a, b) {
        let steps = choose|steps: nat| #[trigger] reaches_in(ps, a, b, steps);
        if steps > 0 {
            assert(descends(ps, a, b));
        }
    }
    if a == b {
        lemma_reaches_self(ps, a);
    }
    if descends(ps, a, b) {
        let steps = choose|steps: nat| steps > 0 && #[trigger] reaches_in(ps, a, b, steps);
        assert(reaches_in(ps, a, b, steps));
    }
}

proof fn lemma_reaches_in_transitive(
    ps: Seq<Seq<usize>>,
    a: int,
    b: int,
    c: int,
    m: nat,
    n: nat,
)
    requires
        reaches_in(ps, a, b, m),
        reaches_in(ps, b, c, n),
    ensures
        reaches_in(ps, a, c, m + n),
    decreases m,
{
    if m > 0 {
        let k = choose|k: int|
            0 <= a < ps.len() && 0 <= k < ps[a].len() && reaches_in(
                ps,
                #[trigger] ps[a][k] as int,
                b,
                (m - 1) as nat,
            );
        lemma_reaches_in_transitive(ps, ps[a][k] as int, b, c, (m - 1) as nat, n);
        assert(reaches_in(ps, ps[a][k] as int, c, ((m + n) - 1) as nat));
    }
}

/// What an ancestor reaches is reached.
pub proof fn lemma_reaches_transitive(ps: Seq<Seq<usize>>, a: int, b: int, c: int)
    requires
        reaches(ps, a, b),
        reaches(ps, b, c),
    ensures
        reaches(ps, a, c),
        descends(ps, b, c) ==> descends(ps, a, c),
        descends(ps, a, b) ==> descends(ps, a, c),
{
    let m = choose|m: nat| #[trigger] reaches_in(ps, a, b, m);
    let n = choose|n: nat| #[trigger] reaches_in(ps, b, c, n);
    lemma_reaches_in_transitive(ps, a, b, c, m, n);
    if descends(ps, b, c) {
        let k = choose|k: nat| k > 0 && #[trigger] reaches_in(ps, b, c, k);
        lemma_reaches_in_transitive(ps, a, b, c, m, k);
    }
    if descends(ps, a, b) {
        let k = choose|k: nat| k > 0 && #[trigger] reaches_in(ps, a, b, k);
        lemma_reaches_in_transitive(ps, a, b, c, k, n);
    }
}

/// A set that holds `a`, and with each commit its parents, holds all that `a` reaches.
pub proof fn lemma_closed_set(ps: Seq<Seq<usize>>, set: Seq<bool>, a: int, b: int)
    requires
        set.len() == ps.len(),
        in_range(ps),
        0 <= a < ps.len(),
        set[a],
        forall|i: int, k: int|
            0 <= i < ps.len() && set[i] && 0 <= k < ps[i].len() ==> set[#[trigger] ps[i][k] as int],
        reaches(ps, a, b),
    ensures
        0 <= b < ps.len(),
        set[b],
{
    let steps = choose|steps: nat| #[trigger] reaches_in(ps, a, b, steps);
    lemma_closed_set_in(ps, set, a, b, steps);
}

proof fn lemma_closed_set_in(ps: Seq<Seq<usize>>, set: Seq<bool>, a: int, b: int, steps: nat)
    requires
        set.len() == ps.len(),
        in_range(ps),
        0 <= a < ps.len(),
        set[a],
        forall|i: int, k: int|
            0 <= i < ps.len() && set[i] && 0 <= k < ps[i].len() ==> set[#[trigger] ps[i][k] as int],
        reaches_in(ps, a, b, steps),
    ensures
        0 <= b < ps.len(),
        set[b],
    decreases steps,
{
    if steps > 0 {
        let k = choose|k: int|
            0 <= a < ps.len() && 0 <= k < ps[a].len() && reaches_in(
                ps,
                #[trigger] ps[a][k] as int,
                b,
                (steps - 1) as nat,
            );
        assert(set[ps[a][k] as int]);
        lemma_closed_set_in(ps, set, ps[a][k] as int, b, (steps - 1) as nat);
    }
}

/// How many places of a set are not in it.
pub open spec fn outside(set: Seq<bool>) -> nat
    decreases set.len(),
{
    if set.len() == 0 {
        0
    } else {
        outside(set.drop_last()) + if set.last() {
            0nat
        } else {
            1nat
        }
    }
}

/// Taking a place into a set leaves one fewer outside.
pub proof fn lemma_outside_update(set: Seq<bool>, i: int)
    requires
        0 <= i < set.len(),
        !set[i],
    ensures
        outside(set.update(i, true)) + 1 == outside(set),
    decreases set.len(),
{
    let more = set.update(i, true);
    if i == set.len() - 1 {
        assert(more.drop_last() =~= set.drop_last());
    } else {
        assert(more.drop_last() =~= set.drop_last().update(i, true));
        lemma_outside_update(set.drop_last(), i);
    }
}

// ---------------------------------------------------------------------------------------------
// Hashes
// ---------------------------------------------------------------------------------------------

/// Whether the hash of the commit at place `a` comes before that at place `b`.
spec fn id_less(commits: Seq<CommitRecord>, a: usize, b: usize) -> bool {
    text::text_less(commits[a as int].id@, commits[b as int].id@)
}

/// Whether `order` holds the places from `from` to `to`, in ascending order of their hashes.
spec fn orders(commits: Seq<CommitRecord>, order: Seq<usize>, from: int, to: int) -> bool {
    &&& forall|k: int| 0 <= k < order.len() ==> from <= #[trigger] order[k] < to
    &&& forall|i: usize| from <= i < to ==> #[trigger] order.contains(i)
    &&& forall|x: int, y: int|
        0 <= x < y < order.len() ==> id_less(commits, #[trigger] order[x], #[trigger] order[y])
}

/// Whether two commits from `from` to `to` have the same hash.
spec fn repeats(commits: Seq<CommitRecord>, from: int, to: int) -> bool {
    exists|i: int, j: int|
        from <= i < j < to && #[trigger] commits[i].id@ == #[trigger] commits[j].id@
}

/// In an order that is strictly ascending no hash stands twice.
proof fn lemma_ordered_is_distinct(commits: Seq<CommitRecord>, order: Seq<usize>)
    requires
        commits.len() <= usize::MAX,
        orders(commits, order, 0, commits.len() as int),
    ensures
        distinct_ids(commits),
{
    assert forall|i: int, j: int| 0 <= i < j < commits.len() implies #[trigger] commits[i].id@
        != #[trigger] commits[j].id@ by {
        assert(order.contains(i as usize));
        assert(order.contains(j as usize));
        let x = choose|x: int| 0 <= x < order.len() && order[x] == i as usize;
        let y = choose|y: int| 0 <= y < order.len() && order[y] == j as usize;
        text::lemma_text_less_irreflexive(commits[i].id@);
        if x < y {
            assert(id_less(commits, order[x], order[y]));
        } else {
            assert(id_less(commits, order[y], order[x]));
        }
    }
}

/// Joins the orders of two neighbouring ranges, unless a hash stands in both.
fn merge_orders(
    commits: &Vec<CommitRecord>,
    a: &Vec<usize>,
    b: &Vec<usize>,
    Ghost(from): Ghost<int>,
    Ghost(middle): Ghost<int>,
    Ghost(to): Ghost<int>,
) -> (r: Option<Vec<usize>>)
    requires
        0 <= from <= middle <= to <= commits@.len(),
        orders(commits@, a@, from, middle),
        orders(commits@, b@, middle, to),
    ensures
        match r {
            Some(order) => orders(commits@, order@, from, to),
            None => repeats(commits@, from, to),
        },
{
    let mut out: Vec<usize> = Vec::new();
    let mut i: usize = 0;
    let mut j: usize = 0;
    while i < a.len() || j < b.len()
        invariant
            0 <= from <= middle <= to <= commits@.len(),
            orders(commits@, a@, from, middle),
            orders(commits@, b@, middle, to),
            i <= a@.len(),
            j <= b@.len(),
            forall|k: int| 0 <= k < out@.len() ==> from <= #[trigger] out@[k] < to,
            forall|x: int, y: int|
                0 <= x < y < out@.len() ==> id_less(commits@, #[trigger] out@[x], #[trigger] out@[y]),
            forall|x: int, y: int|
                0 <= x < out@.len() && i <= y < a@.len() ==> id_less(
                    commits@,
                    #[trigger] out@[x],
                    #[trigger] a@[y],
                ),
            forall|x: int, y: int|
                0 <= x < out@.len() && j <= y < b@.len() ==> id_less(
                    commits@,
                    #[trigger] out@[x],
                    #[trigger] b@[y],
                ),
            forall|k: int| 0 <= k < i ==> out@.contains(#[trigger] a@[k]),
            forall|k: int| 0 <= k < j ==> out@.contains(#[trigger] b@[k]),
        decreases (a@.len() - i) + (b@.len() - j),
    {
        let ghost before = out@;
        let take_first = if i >= a.len() {
            false
        } else if j >= b.len() {
            true
        } else {
            let x = commits[a[i]].id.as_str();
            let y = commits[b[j]].id.as_str();
            if same_text(x, y) {
                assert(commits@[a@[i as int] as int].id@ == commits@[b@[j as int] as int].id@);
                return None;
            }
            proof {
                text::lemma_text_less_total(x@, y@);
            }
            comes_before(x, y)
        };
        let next = if take_first {
            a[i]
        } else {
            b[j]
        };
        proof {
            if take_first {
                assert forall|y: int| j <= y < b@.len() implies id_less(
                    commits@,
                    next,
                    #[trigger] b@[y],
                ) by {
                    if y > j {
                        assert(id_less(commits@, b@[j as int], b@[y]));
                        text::lemma_text_less_transitive(
                            commits@[next as int].id@,
                            commits@[b@[j as int] as int].id@,
                            commits@[b@[y] as int].id@,
                        );
                    }
                }
                assert forall|y: int| i < y < a@.len() implies id_less(
                    commits@,
                    next,
                    #[trigger] a@[y],
                ) by {
                    assert(id_less(commits@, a@[i as int], a@[y]));
                }
            } else {
                assert forall|y: int| i <= y < a@.len() implies id_less(
                    commits@,
                    next,
                    #[trigger] a@[y],
                ) by {
                    if y > i {
                        assert(id_less(commits@, a@[i as int], a@[y]));
                        text::lemma_text_less_transitive(
                            commits@[next as int].id@,
                            commits@[a@[i as int] as int].id@,
                            commits@[a@[y] as int].id@,
                        );
                    }
                }
                assert forall|y: int| j < y < b@.len() implies id_less(
                    commits@,
                    next,
                    #[trigger] b@[y],
                ) by {
                    assert(id_less(commits@, b@[j as int], b@[y]));
                }
            }
        }
        out.push(next);
        assert(out@[before.len() as int] == next);
        assert forall|x: usize| before.contains(x) implies #[trigger] out@.contains(x) by {
            let k = choose|k: int| 0 <= k < before.len() && before[k] == x;
            assert(out@[k] == x);
        }
        if take_first {
            i = i + 1;
        } else {
            j = j + 1;
        }
    }
    assert forall|c: usize| from <= c < to implies #[trigger] out@.contains(c) by {
        if c < middle {
            assert(a@.contains(c));
            let k = choose|k: int| 0 <= k < a@.len() && a@[k] == c;
            assert(out@.contains(a@[k]));
        } else {
            assert(b@.contains(c));
            let k = choose|k: int| 0 <= k < b@.len() && b@[k] == c;
            assert(out@.contains(b@[k]));
        }
    }
    Some(out)
}

/// The places from `from` to `to` in ascending order of their hashes, unless a hash stands twice.
fn order_ids(commits: &Vec<CommitRecord>, from: usize, to: usize) -> (r: Option<Vec<usize>>)
    requires
        from <= to <= commits@.len(),
    ensures
        match r {
            Some(order) => orders(commits@, order@, from as int, to as int),
            None => repeats(commits@, from as int, to as int),
        },
    decreases to - from,
{
    let mut out: Vec<usize> = Vec::new();
    if to - from < 2 {
        if from < to {
            out.push(from);
            assert(out@[0] == from);
        }
        return Some(out);
    }
    let middle: usize = from + (to - from) / 2;
    match (order_ids(commits, from, middle), order_ids(commits, middle, to)) {
        (Some(a), Some(b)) => merge_orders(
            commits,
            &a,
            &b,
            Ghost(from as int),
            Ghost(middle as int),
            Ghost(to as int),
        ),
        _ => None,
    }
}

// ---------------------------------------------------------------------------------------------
// History
// ---------------------------------------------------------------------------------------------

/// The commits of a repository.
#[derive(Debug)]
pub struct History {
    commits: Vec<CommitRecord>,
}

impl View for History {
    type V = Seq<CommitRecord>;

    closed spec fn view(&self) -> Seq<CommitRecord> {
        self.commits@
    }
}

impl History {
    #[verifier::type_invariant]
    spec fn linked(&self) -> bool {
        in_range(parent_lists(self.commits@)) && distinct_ids(self.commits@)
    }

    /// The parents of each commit.
    pub open spec fn parents(&self) -> Seq<Seq<usize>> {
        parent_lists(self@)
    }

    /// A history of the given commits, if every parent is a place among them and no hash stands
    /// twice.
    pub fn new(commits: Vec<CommitRecord>) -> (r: Option<History>)
        ensures
            r is Some == (in_range(parent_lists(commits@)) && distinct_ids(commits@)),
            r matches Some(h) ==> h@ == commits@,
    {
        let n = commits.len();
        let ghost ps = parent_lists(commits@);
        let mut i: usize = 0;
        while i < n
            invariant
                n == commits@.len(),
                i <= n,
                ps == parent_lists(commits@),
                forall|j: int, k: int|
                    0 <= j < i && 0 <= k < ps[j].len() ==> 0 <= #[trigger] ps[j][k] < ps.len(),
            decreases n - i,
        {
            if commits[i].readable {
                let mut k: usize = 0;
                while k < commits[i].parents.len()
                    invariant
                        n == commits@.len(),
                        i < n,
                        commits@[i as int].readable,
                        ps == parent_lists(commits@),
                        k <= commits@[i as int].parents@.len(),
                        forall|m: int| 0 <= m < k ==> 0 <= #[trigger] ps[i as int][m] < ps.len(),
                    decreases commits@[i as int].parents@.len() - k,
                {
                    if commits[i].parents[k] >= n {
                        assert(ps[i as int][k as int] >= ps.len());
                        return None;
                    }
                    k = k + 1;
                }
            }
            i = i + 1;
        }
        match order_ids(&commits, 0, n) {
            Some(order) => {
                proof {
                    lemma_ordered_is_distinct(commits@, order@);
                }
                Some(History { commits })
            },
            None => None,
        }
    }

    /// The number of commits, whose parents are all among them and whose hashes differ.
    pub fn len(&self) -> (r: usize)
        ensures
            r == self@.len(),
            in_range(self.parents()),
            distinct_ids(self@),
    {
        proof {
            use_type_invariant(self);
        }
        self.commits.len()
    }

    /// The commit at place `i`.
    pub fn get(&self, i: usize) -> (r: &CommitRecord)
        requires
            i < self@.len(),
        ensures
            *r == self@[i as int],
    {
        &self.commits[i]
    }

    /// The commits that `start` reaches, itself among them.
    pub fn ancestors(&self, start: usize) -> (r: Vec<bool>)
        requires
            start < self@.len(),
        ensures
            r@.len() == self@.len(),
            forall|i: int| 0 <= i < r@.len() ==> #[trigger] r@[i] == reaches(
                self.parents(),
                start as int,
                i,
            ),
    {
        let n = self.len();
        let ghost ps = self.parents();
        let mut set: Vec<bool> = all_false(n);
        let mut stack: Vec<usize> = Vec::new();
        stack.push(start);
        proof {
            lemma_reaches_self(ps, start as int);
        }
        assert(stack@[0] == start);
        while stack.len() > 0
            invariant
                n == self@.len(),
                start < n,
                ps == self.parents(),
                in_range(ps),
                set@.len() == n,
                forall|i: int| 0 <= i < stack@.len() ==> (#[trigger] stack@[i]) < n,
                forall|i: int|
                    0 <= i < stack@.len() ==> reaches(ps, start as int, #[trigger] stack@[i] as int),
                forall|i: int|
                    0 <= i < n && #[trigger] set@[i] ==> reaches(ps, start as int, i),
                set@[start as int] || stack@.contains(start),
                forall|i: int, k: int|
                    0 <= i < n && set@[i] && 0 <= k < ps[i].len() ==> set@[#[trigger] ps[i][k] as int]
                        || stack@.contains(ps[i][k]),
            decreases outside(set@), stack@.len(),
        {
            let ghost before = stack@;
            let c = stack.pop().unwrap();
            let ghost rest = stack@;
            assert(before =~= rest.push(c));
            assert(before[before.len() - 1] == c);
            assert forall|x: usize| #[trigger] before.contains(x) implies rest.contains(x) || x
                == c by {
                let k = choose|k: int| 0 <= k < before.len() && before[k] == x;
                if k < rest.len() {
                    assert(rest[k] == x);
                }
            }
            if set[c] {
                continue ;
            }
            proof {
                lemma_outside_update(set@, c as int);
            }
            let ghost old_set = set@;
            set.set(c, true);
            let record = self.get(c);
            if record.readable {
                let mut k: usize = 0;
                while k < record.parents.len()
                    invariant
                        n == self@.len(),
                        start < n,
                        ps == self.parents(),
                        in_range(ps),
                        c < n,
                        record == self@[c as int],
                        record.readable,
                        k <= record.parents@.len(),
                        reaches(ps, start as int, c as int),
                        forall|i: int| 0 <= i < stack@.len() ==> (#[trigger] stack@[i]) < n,
                        forall|i: int|
                            0 <= i < stack@.len() ==> reaches(
                                ps,
                                start as int,
                                #[trigger] stack@[i] as int,
                            ),
                        forall|x: usize| rest.contains(x) ==> #[trigger] stack@.contains(x),
                        forall|m: int|
                            0 <= m < k ==> stack@.contains(#[trigger] ps[c as int][m]),
                    decreases record.parents@.len() - k,
                {
                    let p = record.parents[k];
                    assert(ps[c as int][k as int] == p);
                    proof {
                        lemma_reaches_self(ps, p as int);
                        lemma_descends_parent(ps, c as int, k as int, p as int);
                        lemma_reaches_transitive(ps, start as int, c as int, p as int);
                    }
                    let ghost was = stack@;
                    stack.push(p);
                    assert(stack@[was.len() as int] == p);
                    assert forall|x: usize| was.contains(x) implies #[trigger] stack@.contains(
                        x,
                    ) by {
                        let j = choose|j: int| 0 <= j < was.len() && was[j] == x;
                        assert(stack@[j] == x);
                    }
                    k = k + 1;
                }
            }
            assert forall|i: int, k: int|
                0 <= i < n && set@[i] && 0 <= k < ps[i].len() implies set@[#[trigger] ps[i][k] as int]
                || stack@.contains(ps[i][k]) by {
                if i != c {
                    assert(old_set[i]);
                    assert(old_set[ps[i][k] as int] || before.contains(ps[i][k]));
                }
            }
        }
        assert forall|i: int| 0 <= i < n implies #[trigger] set@[i] == reaches(
            ps,
            start as int,
            i,
        ) by {
            if reaches(ps, start as int, i) {
                lemma_closed_set(ps, set@, start as int, i);
            }
        }
        set
    }
}

/// A set with nothing in it.
pub fn all_false(n: usize) -> (r: Vec<bool>)
    ensures
        r@ == Seq::new(n as nat, |i: int| false),
{
    let mut out: Vec<bool> = Vec::new();
    let mut i: usize = 0;
    while i < n
        invariant
            i <= n,
            out@ =~= Seq::new(i as nat, |j: int| false),
        decreases n - i,
    {
        out.push(false);
        i = i + 1;
    }
    out
}

} // verus!
