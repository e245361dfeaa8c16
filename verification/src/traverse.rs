//! The walks that condense a history: which junctions a graph needs, and which shown commit comes
//! next on the way to the past.
//!
//! A walk goes depth first and keeps a stack: of the parents of a commit the last one is followed
//! first. Two of the walks give up at a depth of a hundred commits.

use vstd::prelude::*;

use crate::history;
use crate::history::{all_false, History};

verus! {

/// How many commits deep the walks for junctions go.
pub const MAX_DEPTH: u32 = 100;

/// Whether a walk has nothing to do at `c`: it has been there, or there is no such place.
pub open spec fn settled(seen: Seq<bool>, c: usize) -> bool {
    c >= seen.len() || seen[c as int]
}

/// The parents of a commit, each with its depth.
pub open spec fn deeper(ps: Seq<usize>, depth: u32) -> Seq<(usize, u32)> {
    Seq::new(ps.len(), |i: int| (ps[i], (depth + 1) as u32))
}

// ---------------------------------------------------------------------------------------------
// Does a commit lead to a shown one?
// ---------------------------------------------------------------------------------------------

/// Whether the walk from `stack` comes to a commit of `shown`.
pub open spec fn leads_from(
    ps: Seq<Seq<usize>>,
    shown: Seq<bool>,
    stack: Seq<(usize, u32)>,
    seen: Seq<bool>,
) -> bool
    decreases history::outside(seen), stack.len(),
    via leads_from_decreases
{
    if stack.len() == 0 {
        false
    } else {
        let c = stack.last().0;
        let depth = stack.last().1;
        let rest = stack.drop_last();
        if depth > MAX_DEPTH || settled(seen, c) {
            leads_from(ps, shown, rest, seen)
        } else if shown[c as int] {
            true
        } else {
            leads_from(
                ps,
                shown,
                rest + deeper(ps[c as int], depth),
                seen.update(c as int, true),
            )
        }
    }
}

#[via_fn]
proof fn leads_from_decreases(
    ps: Seq<Seq<usize>>,
    shown: Seq<bool>,
    stack: Seq<(usize, u32)>,
    seen: Seq<bool>,
) {
    if stack.len() > 0 && !settled(seen, stack.last().0) {
        history::lemma_outside_update(seen, stack.last().0 as int);
    }
}

/// A set of `n` places with nothing in it.
pub open spec fn nothing(n: nat) -> Seq<bool> {
    Seq::new(n, |i: int| false)
}

/// Whether the walk from `start` comes to a commit of `shown`.
pub open spec fn leads_to_shown(ps: Seq<Seq<usize>>, shown: Seq<bool>, start: usize) -> bool {
    leads_from(ps, shown, seq![(start, 0u32)], nothing(ps.len()))
}

/// Whether the walk from `start` comes to a commit of `shown`.
pub fn connects_to_referenced_commit(h: &History, shown: &Vec<bool>, start: usize) -> (r: bool)
    requires
        shown@.len() == h@.len(),
    ensures
        r == leads_to_shown(h.parents(), shown@, start),
{
    let n = h.len();
    let ghost ps = h.parents();
    let mut seen = all_false(n);
    let mut stack: Vec<(usize, u32)> = Vec::new();
    stack.push((start, 0));
    assert(stack@ =~= seq![(start, 0u32)]);
    assert(seen@ =~= nothing(ps.len()));
    while stack.len() > 0
        invariant
            n == h@.len(),
            ps == h.parents(),
            shown@.len() == n,
            seen@.len() == n,
            leads_to_shown(ps, shown@, start) == leads_from(ps, shown@, stack@, seen@),
        decreases history::outside(seen@), stack@.len(),
    {
        let ghost before = stack@;
        let (c, depth) = stack.pop().unwrap();
        assert(before.drop_last() =~= stack@);
        assert(before.last() == (c, depth));
        if depth > MAX_DEPTH || c >= n || seen[c] {
            continue ;
        }
        if shown[c] {
            return true;
        }
        proof {
            history::lemma_outside_update(seen@, c as int);
        }
        seen.set(c, true);
        push_parents(h, c, depth, &mut stack);
    }
    false
}

/// Puts the parents of `c` on the stack.
fn push_parents(h: &History, c: usize, depth: u32, stack: &mut Vec<(usize, u32)>)
    requires
        c < h@.len(),
        depth <= MAX_DEPTH,
    ensures
        final(stack)@ == old(stack)@ + deeper(h.parents()[c as int], depth),
{
    let record = h.get(c);
    let ghost ps = h.parents()[c as int];
    assert(old(stack)@ + deeper(ps, depth).take(0) =~= old(stack)@);
    if record.readable {
        let mut k: usize = 0;
        while k < record.parents.len()
            invariant
                c < h@.len(),
                depth <= MAX_DEPTH,
                record == h@[c as int],
                record.readable,
                ps == h.parents()[c as int],
                k <= record.parents@.len(),
                stack@ == old(stack)@ + deeper(ps, depth).take(k as int),
            decreases record.parents@.len() - k,
        {
            stack.push((record.parents[k], depth + 1));
            k = k + 1;
            assert(stack@ =~= old(stack)@ + deeper(ps, depth).take(k as int));
        }
    }
    assert(deeper(ps, depth).take(ps.len() as int) =~= deeper(ps, depth));
}

/// What a walk comes to is an ancestor of where it started.
pub proof fn law_leading_is_reaching(ps: Seq<Seq<usize>>, shown: Seq<bool>, start: usize)
    requires
        shown.len() == ps.len(),
        leads_to_shown(ps, shown, start),
    ensures
        exists|r: int|
            0 <= r < ps.len() && shown[r] && #[trigger] history::reaches(ps, start as int, r),
{
    history::lemma_reaches_self(ps, start as int);
    let stack = seq![(start, 0u32)];
    lemma_leads_reaches(ps, shown, stack, nothing(ps.len()), start as int);
}

proof fn lemma_leads_reaches(
    ps: Seq<Seq<usize>>,
    shown: Seq<bool>,
    stack: Seq<(usize, u32)>,
    seen: Seq<bool>,
    start: int,
)
    requires
        shown.len() == ps.len(),
        seen.len() == ps.len(),
        leads_from(ps, shown, stack, seen),
        forall|i: int|
            0 <= i < stack.len() ==> history::reaches(ps, start, #[trigger] stack[i].0 as int),
    ensures
        exists|r: int| 0 <= r < ps.len() && shown[r] && #[trigger] history::reaches(ps, start, r),
    decreases history::outside(seen), stack.len(),
{
    let c = stack.last().0;
    let depth = stack.last().1;
    let rest = stack.drop_last();
    assert(history::reaches(ps, start, stack[stack.len() - 1].0 as int));
    assert(forall|i: int| 0 <= i < rest.len() ==> rest[i] == stack[i]);
    if depth > MAX_DEPTH || settled(seen, c) {
        lemma_leads_reaches(ps, shown, rest, seen, start);
    } else if shown[c as int] {
        assert(history::reaches(ps, start, c as int));
    } else {
        history::lemma_outside_update(seen, c as int);
        let next = rest + deeper(ps[c as int], depth);
        assert forall|i: int| 0 <= i < next.len() implies history::reaches(
            ps,
            start,
            #[trigger] next[i].0 as int,
        ) by {
            if i < rest.len() {
                assert(next[i] == rest[i]);
            } else {
                let k = i - rest.len();
                assert(next[i].0 == ps[c as int][k]);
                history::lemma_reaches_self(ps, ps[c as int][k] as int);
                history::lemma_descends_parent(ps, c as int, k, ps[c as int][k] as int);
                history::lemma_reaches_transitive(ps, start, c as int, ps[c as int][k] as int);
            }
        }
        lemma_leads_reaches(ps, shown, next, seen.update(c as int, true), start);
    }
}

// ---------------------------------------------------------------------------------------------
// Junctions
// ---------------------------------------------------------------------------------------------

/// The parents of a commit that are followed: of a stash only the first one, for its others hold
/// the index and the untracked files.
pub open spec fn real_parents(ps: Seq<usize>, stash: bool) -> Seq<usize> {
    if stash && ps.len() > 1 {
        ps.take(1)
    } else {
        ps
    }
}

/// Of the given parents those that are not shown, each with its depth.
pub open spec fn hidden(ps: Seq<usize>, shown: Seq<bool>, depth: u32) -> Seq<(usize, u32)>
    decreases ps.len(),
{
    if ps.len() == 0 {
        seq![]
    } else {
        let before = hidden(ps.drop_last(), shown, depth);
        if ps.last() < shown.len() && shown[ps.last() as int] {
            before
        } else {
            before.push((ps.last(), (depth + 1) as u32))
        }
    }
}

/// The commits that the walk from `stack` visits, besides those of `seen`.
pub open spec fn visited_from(
    ps: Seq<Seq<usize>>,
    shown: Seq<bool>,
    stash: Seq<bool>,
    stack: Seq<(usize, u32)>,
    seen: Seq<bool>,
) -> Seq<bool>
    decreases history::outside(seen), stack.len(),
    via visited_from_decreases
{
    if stack.len() == 0 {
        seen
    } else {
        let c = stack.last().0;
        let depth = stack.last().1;
        let rest = stack.drop_last();
        if depth > MAX_DEPTH || settled(seen, c) {
            visited_from(ps, shown, stash, rest, seen)
        } else {
            visited_from(
                ps,
                shown,
                stash,
                rest + hidden(real_parents(ps[c as int], stash[c as int]), shown, depth),
                seen.update(c as int, true),
            )
        }
    }
}

#[via_fn]
proof fn visited_from_decreases(
    ps: Seq<Seq<usize>>,
    shown: Seq<bool>,
    stash: Seq<bool>,
    stack: Seq<(usize, u32)>,
    seen: Seq<bool>,
) {
    if stack.len() > 0 && !settled(seen, stack.last().0) {
        history::lemma_outside_update(seen, stack.last().0 as int);
    }
}

/// The commits that the walk from `start` visits. It does not go past shown commits.
pub open spec fn visited(
    ps: Seq<Seq<usize>>,
    shown: Seq<bool>,
    stash: Seq<bool>,
    start: usize,
) -> Seq<bool> {
    visited_from(ps, shown, stash, seq![(start, 0u32)], nothing(ps.len()))
}

/// How many of the given parents lead to a shown commit.
pub open spec fn leading(ps: Seq<Seq<usize>>, shown: Seq<bool>, parents: Seq<usize>) -> nat
    decreases parents.len(),
{
    if parents.len() == 0 {
        0
    } else {
        leading(ps, shown, parents.drop_last()) + if leads_to_shown(ps, shown, parents.last()) {
            1nat
        } else {
            0nat
        }
    }
}

/// A junction: a merge that is not shown, and more than one of whose parents leads to a shown
/// commit.
pub open spec fn junction(ps: Seq<Seq<usize>>, shown: Seq<bool>, c: int) -> bool {
    &&& ps[c].len() > 1
    &&& !shown[c]
    &&& leading(ps, shown, ps[c]) > 1
}

/// The commits of the condensed graph: the shown ones, and the junctions that a walk from one of
/// them comes to.
pub open spec fn condensed(
    ps: Seq<Seq<usize>>,
    shown: Seq<bool>,
    stash: Seq<bool>,
    c: int,
) -> bool {
    shown[c] || exists|s: int|
        0 <= s < shown.len() && shown[s] && #[trigger] visited(ps, shown, stash, s as usize)[c]
            && junction(ps, shown, c)
}

/// Whether `c` is a junction.
fn is_junction(h: &History, shown: &Vec<bool>, c: usize) -> (r: bool)
    requires
        shown@.len() == h@.len(),
        c < h@.len(),
    ensures
        r == junction(h.parents(), shown@, c as int),
{
    let record = h.get(c);
    let ghost ps = h.parents();
    if !record.readable || record.parents.len() <= 1 || shown[c] {
        return false;
    }
    let mut count: usize = 0;
    let mut k: usize = 0;
    assert(ps[c as int].take(0) =~= seq![]);
    while k < record.parents.len()
        invariant
            shown@.len() == h@.len(),
            c < h@.len(),
            ps == h.parents(),
            record == h@[c as int],
            record.readable,
            k <= record.parents@.len(),
            count <= k,
            count == leading(ps, shown@, ps[c as int].take(k as int)),
        decreases record.parents@.len() - k,
    {
        assert(ps[c as int].take(k + 1).drop_last() =~= ps[c as int].take(k as int));
        if connects_to_referenced_commit(h, shown, record.parents[k]) {
            count = count + 1;
        }
        k = k + 1;
    }
    assert(ps[c as int].take(k as int) =~= ps[c as int]);
    count > 1
}

/// Visits the commits behind `start` up to the next shown ones, and adds the junctions among them
/// to `found`.
fn find_connection_path(
    h: &History,
    shown: &Vec<bool>,
    stash: &Vec<bool>,
    start: usize,
    found: &mut Vec<bool>,
)
    requires
        shown@.len() == h@.len(),
        stash@.len() == h@.len(),
        old(found)@.len() == h@.len(),
    ensures
        final(found)@.len() == h@.len(),
        forall|c: int|
            0 <= c < h@.len() ==> #[trigger] final(found)@[c] == (old(found)@[c] || (visited(
                h.parents(),
                shown@,
                stash@,
                start,
            )[c] && junction(h.parents(), shown@, c))),
{
    let n = h.len();
    let ghost ps = h.parents();
    let mut seen = all_false(n);
    let mut stack: Vec<(usize, u32)> = Vec::new();
    stack.push((start, 0));
    assert(stack@ =~= seq![(start, 0u32)]);
    assert(seen@ =~= nothing(ps.len()));
    while stack.len() > 0
        invariant
            n == h@.len(),
            ps == h.parents(),
            history::in_range(ps),
            shown@.len() == n,
            stash@.len() == n,
            seen@.len() == n,
            found@.len() == n,
            visited(ps, shown@, stash@, start) == visited_from(ps, shown@, stash@, stack@, seen@),
            forall|c: int|
                0 <= c < n ==> #[trigger] found@[c] == (old(found)@[c] || (seen@[c] && junction(
                    ps,
                    shown@,
                    c,
                ))),
        decreases history::outside(seen@), stack@.len(),
    {
        let ghost before = stack@;
        let (c, depth) = stack.pop().unwrap();
        assert(before.drop_last() =~= stack@);
        assert(before.last() == (c, depth));
        if depth > MAX_DEPTH || c >= n || seen[c] {
            continue ;
        }
        proof {
            history::lemma_outside_update(seen@, c as int);
        }
        seen.set(c, true);
        if is_junction(h, shown, c) {
            found.set(c, true);
        }
        let record = h.get(c);
        if record.readable {
            let mut last: usize = record.parents.len();
            if stash[c] && last > 1 {
                last = 1;
            }
            let ghost own = real_parents(ps[c as int], stash@[c as int]);
            let ghost rest = stack@;
            assert(own.len() == last);
            assert(own.take(0) =~= seq![]);
            assert(rest + hidden(own.take(0), shown@, depth) =~= rest);
            let mut k: usize = 0;
            while k < last
                invariant
                    n == h@.len(),
                    ps == h.parents(),
                    history::in_range(ps),
                    shown@.len() == n,
                    c < n,
                    depth <= MAX_DEPTH,
                    record == h@[c as int],
                    record.readable,
                    last <= record.parents@.len(),
                    own == record.parents@.take(last as int),
                    k <= last,
                    stack@ == rest + hidden(own.take(k as int), shown@, depth),
                decreases last - k,
            {
                let p = record.parents[k];
                assert(ps[c as int][k as int] == p);
                assert(own.take(k + 1).drop_last() =~= own.take(k as int));
                assert(own.take(k + 1).last() == p);
                if !shown[p] {
                    stack.push((p, depth + 1));
                    assert(stack@ =~= rest + hidden(own.take(k + 1), shown@, depth));
                }
                k = k + 1;
            }
            assert(own.take(last as int) =~= own);
        } else {
            assert(real_parents(ps[c as int], stash@[c as int]) =~= seq![]);
            assert(stack@ + hidden(seq![], shown@, depth) =~= stack@);
        }
    }
}

/// The commits of the condensed graph: those that are shown, and the junctions between them.
pub fn condensed_set(h: &History, shown: &Vec<bool>, stash: &Vec<bool>) -> (r: Vec<bool>)
    requires
        shown@.len() == h@.len(),
        stash@.len() == h@.len(),
    ensures
        r@.len() == h@.len(),
        forall|c: int|
            0 <= c < h@.len() ==> #[trigger] r@[c] == condensed(h.parents(), shown@, stash@, c),
{
    let n = h.len();
    let ghost ps = h.parents();
    let mut found = all_false(n);
    let mut s: usize = 0;
    while s < n
        invariant
            n == h@.len(),
            ps == h.parents(),
            shown@.len() == n,
            stash@.len() == n,
            found@.len() == n,
            s <= n,
            forall|c: int|
                0 <= c < n ==> #[trigger] found@[c] == exists|t: int|
                    0 <= t < s && shown@[t] && #[trigger] visited(ps, shown@, stash@, t as usize)[c]
                        && junction(ps, shown@, c),
        decreases n - s,
    {
        let ghost before = found@;
        if shown[s] {
            find_connection_path(h, shown, stash, s, &mut found);
        }
        assert forall|c: int| 0 <= c < n implies #[trigger] found@[c] == exists|t: int|
            0 <= t < s + 1 && shown@[t] && #[trigger] visited(ps, shown@, stash@, t as usize)[c]
                && junction(ps, shown@, c) by {
            if before[c] {
                let t = choose|t: int|
                    0 <= t < s && shown@[t] && #[trigger] visited(ps, shown@, stash@, t as usize)[c]
                        && junction(ps, shown@, c);
                assert(visited(ps, shown@, stash@, t as usize)[c]);
            }
            if shown@[s as int] && visited(ps, shown@, stash@, s)[c] && junction(ps, shown@, c) {
                assert(visited(ps, shown@, stash@, (s as int) as usize)[c]);
            }
        }
        s = s + 1;
    }
    let mut c: usize = 0;
    let ghost junctions = found@;
    while c < n
        invariant
            n == h@.len(),
            shown@.len() == n,
            found@.len() == n,
            junctions.len() == n,
            c <= n,
            forall|i: int| 0 <= i < c ==> #[trigger] found@[i] == (shown@[i] || junctions[i]),
            forall|i: int| c <= i < n ==> #[trigger] found@[i] == junctions[i],
        decreases n - c,
    {
        if shown[c] {
            found.set(c, true);
        }
        c = c + 1;
    }
    found
}

/// Every commit of the condensed graph is shown, or is a merge through which two ways lead to
/// shown commits that are its ancestors.
pub proof fn law_junction_has_shown_ancestor(
    ps: Seq<Seq<usize>>,
    shown: Seq<bool>,
    stash: Seq<bool>,
    c: int,
)
    requires
        shown.len() == ps.len(),
        0 <= c < ps.len(),
        condensed(ps, shown, stash, c),
    ensures
        shown[c] || (ps[c].len() > 1 && exists|r: int|
            0 <= r < ps.len() && shown[r] && #[trigger] history::descends(ps, c, r)),
{
    if !shown[c] {
        lemma_leading_parent(ps, shown, ps[c]);
        let k = choose|k: int|
            0 <= k < ps[c].len() && leads_to_shown(ps, shown, #[trigger] ps[c][k]);
        law_leading_is_reaching(ps, shown, ps[c][k]);
        let r = choose|r: int|
            0 <= r < ps.len() && shown[r] && #[trigger] history::reaches(ps, ps[c][k] as int, r);
        history::lemma_descends_parent(ps, c, k, r);
        assert(history::descends(ps, c, r));
    }
}

proof fn lemma_leading_parent(ps: Seq<Seq<usize>>, shown: Seq<bool>, parents: Seq<usize>)
    requires
        leading(ps, shown, parents) > 0,
    ensures
        exists|k: int| 0 <= k < parents.len() && leads_to_shown(ps, shown, #[trigger] parents[k]),
    decreases parents.len(),
{
    if leads_to_shown(ps, shown, parents.last()) {
        assert(leads_to_shown(ps, shown, parents[parents.len() - 1]));
    } else {
        let before = parents.drop_last();
        lemma_leading_parent(ps, shown, before);
        let k = choose|k: int|
            0 <= k < before.len() && leads_to_shown(ps, shown, #[trigger] before[k]);
        assert(parents[k] == before[k]);
    }
}

/// A walk for junctions stays among the ancestors of where it started.
pub proof fn law_visiting_is_reaching(
    ps: Seq<Seq<usize>>,
    shown: Seq<bool>,
    stash: Seq<bool>,
    start: usize,
    c: int,
)
    requires
        shown.len() == ps.len(),
        stash.len() == ps.len(),
        0 <= c < ps.len(),
        visited(ps, shown, stash, start)[c],
    ensures
        history::reaches(ps, start as int, c),
{
    history::lemma_reaches_self(ps, start as int);
    lemma_visited_reaches(
        ps,
        shown,
        stash,
        seq![(start, 0u32)],
        nothing(ps.len()),
        start as int,
        c,
    );
}

proof fn lemma_hidden(ps: Seq<usize>, shown: Seq<bool>, depth: u32)
    ensures
        forall|i: int|
            0 <= i < hidden(ps, shown, depth).len() ==> ps.contains(
                #[trigger] hidden(ps, shown, depth)[i].0,
            ),
    decreases ps.len(),
{
    if ps.len() > 0 {
        let before = ps.drop_last();
        lemma_hidden(before, shown, depth);
        assert forall|i: int| 0 <= i < hidden(ps, shown, depth).len() implies ps.contains(
            #[trigger] hidden(ps, shown, depth)[i].0,
        ) by {
            let p = hidden(ps, shown, depth)[i].0;
            let earlier = hidden(before, shown, depth);
            if i < earlier.len() {
                assert(earlier[i].0 == p);
                let k = choose|k: int| 0 <= k < before.len() && before[k] == p;
                assert(ps[k] == p);
            } else {
                assert(ps[ps.len() - 1] == p);
            }
        }
    }
}

proof fn lemma_visited_reaches(
    ps: Seq<Seq<usize>>,
    shown: Seq<bool>,
    stash: Seq<bool>,
    stack: Seq<(usize, u32)>,
    seen: Seq<bool>,
    start: int,
    c: int,
)
    requires
        shown.len() == ps.len(),
        stash.len() == ps.len(),
        seen.len() == ps.len(),
        0 <= c < ps.len(),
        visited_from(ps, shown, stash, stack, seen)[c],
        forall|i: int| 0 <= i < seen.len() && #[trigger] seen[i] ==> history::reaches(ps, start, i),
        forall|i: int|
            0 <= i < stack.len() ==> history::reaches(ps, start, #[trigger] stack[i].0 as int),
    ensures
        history::reaches(ps, start, c),
    decreases history::outside(seen), stack.len(),
{
    if stack.len() > 0 {
        let x = stack.last().0;
        let depth = stack.last().1;
        let rest = stack.drop_last();
        assert(history::reaches(ps, start, stack[stack.len() - 1].0 as int));
        assert(forall|i: int| 0 <= i < rest.len() ==> rest[i] == stack[i]);
        if depth > MAX_DEPTH || settled(seen, x) {
            lemma_visited_reaches(ps, shown, stash, rest, seen, start, c);
        } else {
            history::lemma_outside_update(seen, x as int);
            let own = real_parents(ps[x as int], stash[x as int]);
            let more = hidden(own, shown, depth);
            let next = rest + more;
            lemma_hidden(own, shown, depth);
            assert forall|i: int| 0 <= i < next.len() implies history::reaches(
                ps,
                start,
                #[trigger] next[i].0 as int,
            ) by {
                if i < rest.len() {
                    assert(next[i] == rest[i]);
                } else {
                    let p = more[i - rest.len()].0;
                    assert(next[i].0 == p);
                    let k = choose|k: int| 0 <= k < own.len() && own[k] == p;
                    assert(ps[x as int][k] == p);
                    history::lemma_reaches_self(ps, p as int);
                    history::lemma_descends_parent(ps, x as int, k, p as int);
                    history::lemma_reaches_transitive(ps, start, x as int, p as int);
                }
            }
            lemma_visited_reaches(
                ps,
                shown,
                stash,
                next,
                seen.update(x as int, true),
                start,
                c,
            );
        }
    }
}

// ---------------------------------------------------------------------------------------------
// The next commit of the condensed graph
// ---------------------------------------------------------------------------------------------

/// The first commit of `kept` that the walk from `stack` comes to.
pub open spec fn next_from(
    ps: Seq<Seq<usize>>,
    kept: Seq<bool>,
    stack: Seq<usize>,
    seen: Seq<bool>,
) -> Option<usize>
    decreases history::outside(seen), stack.len(),
    via next_from_decreases
{
    if stack.len() == 0 {
        None
    } else {
        let c = stack.last();
        let rest = stack.drop_last();
        if settled(seen, c) {
            next_from(ps, kept, rest, seen)
        } else if kept[c as int] {
            Some(c)
        } else {
            next_from(ps, kept, rest + ps[c as int], seen.update(c as int, true))
        }
    }
}

#[via_fn]
proof fn next_from_decreases(
    ps: Seq<Seq<usize>>,
    kept: Seq<bool>,
    stack: Seq<usize>,
    seen: Seq<bool>,
) {
    if stack.len() > 0 && !settled(seen, stack.last()) {
        history::lemma_outside_update(seen, stack.last() as int);
    }
}

/// The first commit of `kept` that a walk from `start` into the past comes to, `start` itself
/// among them.
pub open spec fn next_kept(ps: Seq<Seq<usize>>, kept: Seq<bool>, start: usize) -> Option<usize> {
    next_from(ps, kept, seq![start], nothing(ps.len()))
}

/// The first commit of `kept` that a walk from `start` into the past comes to.
pub fn find_next_condensed_commit(h: &History, kept: &Vec<bool>, start: usize) -> (r: Option<usize>)
    requires
        kept@.len() == h@.len(),
    ensures
        r == next_kept(h.parents(), kept@, start),
{
    let n = h.len();
    let ghost ps = h.parents();
    let mut seen = all_false(n);
    let mut stack: Vec<usize> = Vec::new();
    stack.push(start);
    assert(stack@ =~= seq![start]);
    assert(seen@ =~= nothing(ps.len()));
    while stack.len() > 0
        invariant
            n == h@.len(),
            ps == h.parents(),
            kept@.len() == n,
            seen@.len() == n,
            next_kept(ps, kept@, start) == next_from(ps, kept@, stack@, seen@),
        decreases history::outside(seen@), stack@.len(),
    {
        let ghost before = stack@;
        let c = stack.pop().unwrap();
        assert(before.drop_last() =~= stack@);
        assert(before.last() == c);
        if c >= n || seen[c] {
            continue ;
        }
        if kept[c] {
            return Some(c);
        }
        proof {
            history::lemma_outside_update(seen@, c as int);
        }
        seen.set(c, true);
        let record = h.get(c);
        let ghost rest = stack@;
        if record.readable {
            let mut k: usize = 0;
            assert(rest + ps[c as int].take(0) =~= rest);
            while k < record.parents.len()
                invariant
                    c < h@.len(),
                    ps == h.parents(),
                    record == h@[c as int],
                    record.readable,
                    k <= record.parents@.len(),
                    stack@ == rest + ps[c as int].take(k as int),
                decreases record.parents@.len() - k,
            {
                stack.push(record.parents[k]);
                k = k + 1;
                assert(stack@ =~= rest + ps[c as int].take(k as int));
            }
            assert(ps[c as int].take(k as int) =~= ps[c as int]);
        } else {
            assert(rest + ps[c as int] =~= rest);
        }
    }
    None
}

/// The walk finds a commit of `kept` that `start` reaches, and finds one whenever there is one.
pub proof fn law_next_is_found(ps: Seq<Seq<usize>>, kept: Seq<bool>, start: usize)
    requires
        history::in_range(ps),
        kept.len() == ps.len(),
        start < ps.len(),
    ensures
        match next_kept(ps, kept, start) {
            Some(c) => c < ps.len() && kept[c as int] && history::reaches(
                ps,
                start as int,
                c as int,
            ),
            None => forall|c: int|
                0 <= c < ps.len() && #[trigger] history::reaches(ps, start as int, c) ==> !kept[c],
        },
{
    history::lemma_reaches_self(ps, start as int);
    assert(seq![start][0] == start);
    lemma_next_found(ps, kept, seq![start], nothing(ps.len()), start);
}

proof fn lemma_next_found(
    ps: Seq<Seq<usize>>,
    kept: Seq<bool>,
    stack: Seq<usize>,
    seen: Seq<bool>,
    start: usize,
)
    requires
        history::in_range(ps),
        kept.len() == ps.len(),
        seen.len() == ps.len(),
        start < ps.len(),
        forall|i: int| 0 <= i < stack.len() ==> (#[trigger] stack[i]) < ps.len(),
        forall|i: int|
            0 <= i < stack.len() ==> history::reaches(ps, start as int, #[trigger] stack[i] as int),
        forall|i: int| 0 <= i < seen.len() && #[trigger] seen[i] ==> !kept[i],
        seen[start as int] || stack.contains(start),
        forall|i: int, k: int|
            0 <= i < ps.len() && seen[i] && 0 <= k < ps[i].len() ==> seen[#[trigger] ps[i][k] as int]
                || stack.contains(ps[i][k]),
    ensures
        match next_from(ps, kept, stack, seen) {
            Some(c) => c < ps.len() && kept[c as int] && history::reaches(
                ps,
                start as int,
                c as int,
            ),
            None => forall|c: int|
                0 <= c < ps.len() && #[trigger] history::reaches(ps, start as int, c) ==> !kept[c],
        },
    decreases history::outside(seen), stack.len(),
{
    if stack.len() == 0 {
        assert forall|c: int| 0 <= c < ps.len() && #[trigger] history::reaches(
            ps,
            start as int,
            c,
        ) implies !kept[c] by {
            history::lemma_closed_set(ps, seen, start as int, c);
        }
    } else {
        let c = stack.last();
        let rest = stack.drop_last();
        assert(stack[stack.len() - 1] == c);
        assert(forall|i: int| 0 <= i < rest.len() ==> rest[i] == stack[i]);
        assert forall|x: usize| #[trigger] stack.contains(x) implies rest.contains(x) || x == c by {
            let j = choose|j: int| 0 <= j < stack.len() && stack[j] == x;
            if j < rest.len() {
                assert(rest[j] == x);
            }
        }
        if settled(seen, c) {
            lemma_next_found(ps, kept, rest, seen, start);
        } else if !kept[c as int] {
            let more = seen.update(c as int, true);
            let next = rest + ps[c as int];
            history::lemma_outside_update(seen, c as int);
            assert forall|i: int| 0 <= i < next.len() implies (#[trigger] next[i]) < ps.len()
                && history::reaches(ps, start as int, next[i] as int) by {
                if i < rest.len() {
                    assert(next[i] == rest[i]);
                } else {
                    let k = i - rest.len();
                    assert(next[i] == ps[c as int][k]);
                    history::lemma_reaches_self(ps, ps[c as int][k] as int);
                    history::lemma_descends_parent(ps, c as int, k, ps[c as int][k] as int);
                    history::lemma_reaches_transitive(
                        ps,
                        start as int,
                        c as int,
                        ps[c as int][k] as int,
                    );
                }
            }
            assert forall|x: usize| rest.contains(x) implies #[trigger] next.contains(x) by {
                let j = choose|j: int| 0 <= j < rest.len() && rest[j] == x;
                assert(next[j] == x);
            }
            assert forall|i: int, k: int|
                0 <= i < ps.len() && more[i] && 0 <= k < ps[i].len() implies more[#[trigger] ps[i][k] as int]
                || next.contains(ps[i][k]) by {
                if i == c {
                    assert(next[rest.len() + k] == ps[i][k]);
                } else {
                    assert(seen[i]);
                    assert(seen[ps[i][k] as int] || stack.contains(ps[i][k]));
                }
            }
            lemma_next_found(ps, kept, next, more, start);
        }
    }
}

/// The commits of `kept` that the given parents lead to, each once, in the order of the parents.
pub open spec fn connections(ps: Seq<Seq<usize>>, kept: Seq<bool>, parents: Seq<usize>) -> Seq<
    usize,
>
    decreases parents.len(),
{
    if parents.len() == 0 {
        seq![]
    } else {
        let before = connections(ps, kept, parents.drop_last());
        match next_kept(ps, kept, parents.last()) {
            Some(c) => if before.contains(c) {
                before
            } else {
                before.push(c)
            },
            None => before,
        }
    }
}

/// The parents of `c` in the condensed graph.
pub open spec fn condensed_parents(
    ps: Seq<Seq<usize>>,
    kept: Seq<bool>,
    stash: Seq<bool>,
    c: int,
) -> Seq<usize> {
    connections(ps, kept, real_parents(ps[c], stash[c]))
}

/// Whether `v` holds `x`.
fn holds(v: &Vec<usize>, x: usize) -> (r: bool)
    ensures
        r == v@.contains(x),
{
    let mut i: usize = 0;
    while i < v.len()
        invariant
            i <= v@.len(),
            forall|j: int| 0 <= j < i ==> v@[j] != x,
        decreases v@.len() - i,
    {
        if v[i] == x {
            return true;
        }
        i = i + 1;
    }
    false
}

/// The parents of `c` in the condensed graph: for each of its parents the next commit that the
/// graph holds.
pub fn find_condensed_connections(
    h: &History,
    kept: &Vec<bool>,
    stash: &Vec<bool>,
    c: usize,
) -> (r: Vec<usize>)
    requires
        kept@.len() == h@.len(),
        stash@.len() == h@.len(),
        c < h@.len(),
    ensures
        r@ == condensed_parents(h.parents(), kept@, stash@, c as int),
{
    let mut out: Vec<usize> = Vec::new();
    let record = h.get(c);
    let ghost ps = h.parents();
    let ghost own = real_parents(ps[c as int], stash@[c as int]);
    if record.readable {
        let mut last: usize = record.parents.len();
        if stash[c] && last > 1 {
            last = 1;
        }
        assert(own.take(0) =~= seq![]);
        let mut k: usize = 0;
        while k < last
            invariant
                ps == h.parents(),
                kept@.len() == h@.len(),
                c < h@.len(),
                record == h@[c as int],
                last <= record.parents@.len(),
                own == record.parents@.take(last as int),
                k <= last,
                out@ == connections(ps, kept@, own.take(k as int)),
            decreases last - k,
        {
            assert(own.take(k + 1).drop_last() =~= own.take(k as int));
            assert(own.take(k + 1).last() == record.parents@[k as int]);
            match find_next_condensed_commit(h, kept, record.parents[k]) {
                Some(next) => {
                    if !holds(&out, next) {
                        out.push(next);
                    }
                },
                None => {},
            }
            k = k + 1;
        }
        assert(own.take(last as int) =~= own);
    } else {
        assert(own =~= seq![]);
    }
    out
}

/// Every parent in the condensed graph is a commit of the graph and an ancestor in the history,
/// and stands there once.
pub proof fn law_condensed_parents_are_ancestors(
    ps: Seq<Seq<usize>>,
    kept: Seq<bool>,
    stash: Seq<bool>,
    c: int,
)
    requires
        history::in_range(ps),
        kept.len() == ps.len(),
        0 <= c < ps.len(),
    ensures
        forall|k: int|
            #![trigger condensed_parents(ps, kept, stash, c)[k]]
            0 <= k < condensed_parents(ps, kept, stash, c).len() ==> {
                let p = condensed_parents(ps, kept, stash, c)[k];
                p < ps.len() && kept[p as int] && history::descends(ps, c, p as int)
            },
        condensed_parents(ps, kept, stash, c).no_duplicates(),
{
    let own = real_parents(ps[c], stash[c]);
    assert(forall|k: int| 0 <= k < own.len() ==> own[k] == ps[c][k]);
    lemma_connections(ps, kept, own, c);
}

proof fn lemma_connections(ps: Seq<Seq<usize>>, kept: Seq<bool>, parents: Seq<usize>, c: int)
    requires
        history::in_range(ps),
        kept.len() == ps.len(),
        0 <= c < ps.len(),
        parents.len() <= ps[c].len(),
        forall|k: int| 0 <= k < parents.len() ==> #[trigger] parents[k] == ps[c][k],
    ensures
        forall|k: int|
            #![trigger connections(ps, kept, parents)[k]]
            0 <= k < connections(ps, kept, parents).len() ==> {
                let p = connections(ps, kept, parents)[k];
                p < ps.len() && kept[p as int] && history::descends(ps, c, p as int)
            },
        connections(ps, kept, parents).no_duplicates(),
        connections(ps, kept, parents).len() > 0 <==> exists|k: int|
            0 <= k < parents.len() && next_kept(ps, kept, #[trigger] parents[k]) is Some,
    decreases parents.len(),
{
    if parents.len() > 0 {
        let before = parents.drop_last();
        assert(forall|k: int| 0 <= k < before.len() ==> before[k] == parents[k]);
        lemma_connections(ps, kept, before, c);
        let k = parents.len() - 1;
        let start = parents[k];
        assert(start == ps[c][k]);
        law_next_is_found(ps, kept, start);
        match next_kept(ps, kept, start) {
            Some(p) => {
                history::lemma_descends_parent(ps, c, k, p as int);
                assert(next_kept(ps, kept, parents[k]) is Some);
                let had = connections(ps, kept, before);
                if !had.contains(p) {
                    assert(connections(ps, kept, parents) =~= had.push(p));
                }
            },
            None => {},
        }
        if connections(ps, kept, before).len() > 0 {
            let j = choose|j: int|
                0 <= j < before.len() && next_kept(ps, kept, #[trigger] before[j]) is Some;
            assert(next_kept(ps, kept, parents[j]) is Some);
        }
        if exists|j: int| 0 <= j < parents.len() && next_kept(ps, kept, #[trigger] parents[j]) is Some {
            let j = choose|j: int|
                0 <= j < parents.len() && next_kept(ps, kept, #[trigger] parents[j]) is Some;
            if j < before.len() {
                assert(next_kept(ps, kept, before[j]) is Some);
            }
        }
    }
}

/// A commit has a parent in the condensed graph whenever one of the parents that are followed
/// reaches a commit of the graph.
pub proof fn law_condensed_graph_keeps_connections(
    ps: Seq<Seq<usize>>,
    kept: Seq<bool>,
    stash: Seq<bool>,
    c: int,
    k: int,
    x: int,
)
    requires
        history::in_range(ps),
        kept.len() == ps.len(),
        0 <= c < ps.len(),
        0 <= k < real_parents(ps[c], stash[c]).len(),
        0 <= x < ps.len(),
        kept[x],
        history::reaches(ps, real_parents(ps[c], stash[c])[k] as int, x),
    ensures
        condensed_parents(ps, kept, stash, c).len() > 0,
{
    let own = real_parents(ps[c], stash[c]);
    assert(forall|j: int| 0 <= j < own.len() ==> own[j] == ps[c][j]);
    assert(ps[c][k] < ps.len());
    law_next_is_found(ps, kept, own[k]);
    lemma_connections(ps, kept, own, c);
    assert(next_kept(ps, kept, own[k]) is Some);
}

} // verus!
