//! What the walks over a history find, told by paths: sequences of commits, each of which is
//! followed by one of its parents.

use vstd::prelude::*;

use crate::commit_node::NodeView;
use crate::condensed;
use crate::history;
use crate::history::CommitRecord;
use crate::traverse;

verus! {

/// Whether each commit of `path` is followed by one of its parents.
pub open spec fn is_path(ps: Seq<Seq<usize>>, path: Seq<usize>) -> bool {
    &&& path.len() > 0
    &&& forall|k: int| 0 <= k < path.len() ==> (#[trigger] path[k]) < ps.len()
    &&& forall|k: int| 0 < k < path.len() ==> ps[path[k - 1] as int].contains(#[trigger] path[k])
}

/// Whether `path` is a path with no commit of `set` strictly between its ends.
pub open spec fn passes(ps: Seq<Seq<usize>>, set: Seq<bool>, path: Seq<usize>) -> bool {
    &&& is_path(ps, path)
    &&& forall|k: int| 0 < k < path.len() - 1 ==> !set[#[trigger] path[k] as int]
}

/// Whether `path` leads from `a` to `b` with no commit of `set` strictly in between.
pub open spec fn leads(
    ps: Seq<Seq<usize>>,
    set: Seq<bool>,
    path: Seq<usize>,
    a: usize,
    b: usize,
) -> bool {
    passes(ps, set, path) && path[0] == a && path.last() == b
}

/// Whether every path from `a` to `b` with no commit of `set` strictly in between has fewer than a
/// hundred steps.
pub open spec fn near(ps: Seq<Seq<usize>>, set: Seq<bool>, a: usize, b: usize) -> bool {
    forall|path: Seq<usize>| #[trigger] leads(ps, set, path, a, b) ==> path.len() <= 100
}

/// Whether `path` leads from `a` to `b` with no commit of `set` strictly in between, and no other
/// such path makes a detour of a hundred steps or more to one of the commits on the way.
pub open spec fn leads_nearby(
    ps: Seq<Seq<usize>>,
    set: Seq<bool>,
    path: Seq<usize>,
    a: usize,
    b: usize,
) -> bool {
    &&& leads(ps, set, path, a, b)
    &&& forall|k: int| 0 <= k < path.len() - 1 ==> near(ps, set, a, #[trigger] path[k])
}

/// The parents of each commit that are followed: of a stash only the first one.
pub open spec fn followed_lists(ps: Seq<Seq<usize>>, stash: Seq<bool>) -> Seq<Seq<usize>> {
    Seq::new(
        ps.len(),
        |x: int|
            if stash[x] && ps[x].len() > 1 {
                seq![ps[x][0]]
            } else {
                ps[x]
            },
    )
}

/// Some path of `steps` steps leads from `a` to `b`.
spec fn way(ps: Seq<Seq<usize>>, set: Seq<bool>, a: usize, b: usize, steps: nat) -> bool {
    exists|path: Seq<usize>| #[trigger] leads(ps, set, path, a, b) && path.len() == steps + 1
}

proof fn lemma_way_start(ps: Seq<Seq<usize>>, set: Seq<bool>, a: usize)
    requires
        a < ps.len(),
    ensures
        way(ps, set, a, a, 0),
{
    let path = seq![a];
    assert(leads(ps, set, path, a, a));
}

proof fn lemma_way_step(
    ps: Seq<Seq<usize>>,
    set: Seq<bool>,
    a: usize,
    b: usize,
    steps: nat,
    c: usize,
)
    requires
        way(ps, set, a, b, steps),
        steps == 0 || !set[b as int],
        ps[b as int].contains(c),
        c < ps.len(),
    ensures
        way(ps, set, a, c, steps + 1),
{
    let path = choose|path: Seq<usize>|
        #[trigger] leads(ps, set, path, a, b) && path.len() == steps + 1;
    let more = path.push(c);
    assert(forall|k: int| 0 <= k < path.len() ==> more[k] == path[k]);
    assert(more[path.len() - 1] == b);
    assert(is_path(ps, more)) by {
        assert forall|k: int| 0 < k < more.len() implies ps[more[k - 1] as int].contains(
            #[trigger] more[k],
        ) by {
            if k < path.len() {
                assert(path[k] == more[k]);
            }
        }
    }
    assert forall|k: int| 0 < k < more.len() - 1 implies !set[#[trigger] more[k] as int] by {
        if k < path.len() - 1 {
            assert(path[k] == more[k]);
        }
    }
    assert(leads(ps, set, more, a, c));
}

proof fn lemma_near_way(
    ps: Seq<Seq<usize>>,
    set: Seq<bool>,
    a: usize,
    b: usize,
    steps: nat,
)
    requires
        way(ps, set, a, b, steps),
        near(ps, set, a, b),
    ensures
        steps < 100,
{
}

/// Whether `p` waits on a stack at a depth that is not too large.
spec fn waits(stack: Seq<(usize, u32)>, p: usize) -> bool {
    exists|i: int| 0 <= i < stack.len() && (#[trigger] stack[i]).0 == p && stack[i].1 <= 100
}

proof fn lemma_waits_drop(stack: Seq<(usize, u32)>, p: usize)
    requires
        stack.len() > 0,
        waits(stack, p),
    ensures
        waits(stack.drop_last(), p) || (stack.last().0 == p && stack.last().1 <= 100),
{
    let i = choose|i: int| 0 <= i < stack.len() && (#[trigger] stack[i]).0 == p && stack[i].1 <= 100;
    if i < stack.len() - 1 {
        assert(stack.drop_last()[i] == stack[i]);
    }
}

proof fn lemma_waits_append(stack: Seq<(usize, u32)>, more: Seq<(usize, u32)>, p: usize)
    requires
        waits(stack, p) || waits(more, p),
    ensures
        waits(stack + more, p),
{
    let all = stack + more;
    if waits(stack, p) {
        let i = choose|i: int|
            0 <= i < stack.len() && (#[trigger] stack[i]).0 == p && stack[i].1 <= 100;
        assert(all[i] == stack[i]);
    } else {
        let i = choose|i: int|
            0 <= i < more.len() && (#[trigger] more[i]).0 == p && more[i].1 <= 100;
        assert(all[stack.len() + i] == more[i]);
    }
}

// ---------------------------------------------------------------------------------------------
// The walk for junctions
// ---------------------------------------------------------------------------------------------

proof fn lemma_hidden_entries(ps: Seq<usize>, shown: Seq<bool>, depth: u32)
    requires
        depth <= 100,
    ensures
        forall|i: int|
            0 <= i < traverse::hidden(ps, shown, depth).len() ==> {
                let e = #[trigger] traverse::hidden(ps, shown, depth)[i];
                e.1 == depth + 1 && ps.contains(e.0) && !(e.0 < shown.len() && shown[e.0 as int])
            },
        forall|p: usize|
            #[trigger] ps.contains(p) && !(p < shown.len() && shown[p as int]) ==> exists|i: int|
                0 <= i < traverse::hidden(ps, shown, depth).len() && (#[trigger] traverse::hidden(
                    ps,
                    shown,
                    depth,
                )[i]).0 == p,
    decreases ps.len(),
{
    if ps.len() > 0 {
        let before = ps.drop_last();
        lemma_hidden_entries(before, shown, depth);
        let old_list = traverse::hidden(before, shown, depth);
        let list = traverse::hidden(ps, shown, depth);
        assert(ps[ps.len() - 1] == ps.last());
        assert forall|x: usize| before.contains(x) implies #[trigger] ps.contains(x) by {
            let k = choose|k: int| 0 <= k < before.len() && before[k] == x;
            assert(ps[k] == x);
        }
        assert forall|i: int| 0 <= i < list.len() implies {
            let e = #[trigger] list[i];
            e.1 == depth + 1 && ps.contains(e.0) && !(e.0 < shown.len() && shown[e.0 as int])
        } by {
            if i < old_list.len() {
                assert(list[i] == old_list[i]);
            }
        }
        assert forall|p: usize|
            #[trigger] ps.contains(p) && !(p < shown.len() && shown[p as int]) implies exists|
            i: int,
        |
            0 <= i < list.len() && (#[trigger] list[i]).0 == p by {
            let k = choose|k: int| 0 <= k < ps.len() && ps[k] == p;
            if k < before.len() {
                assert(before[k] == p);
                assert(before.contains(p));
                let i = choose|i: int| 0 <= i < old_list.len() && (#[trigger] old_list[i]).0 == p;
                assert(list[i] == old_list[i]);
            } else {
                assert(list[list.len() - 1].0 == p);
            }
        }
    }
}

/// The entries of a stack can be reached in as many steps as they are deep.
spec fn junction_stack(
    fs: Seq<Seq<usize>>,
    shown: Seq<bool>,
    stack: Seq<(usize, u32)>,
    start: usize,
) -> bool {
    forall|i: int|
        0 <= i < stack.len() ==> {
            let e = #[trigger] stack[i];
            &&& e.0 < fs.len()
            &&& way(fs, shown, start, e.0, e.1 as nat)
            &&& (e.1 == 0 || !shown[e.0 as int])
        }
}

/// Whether a commit that was visited has `p` for a parent that has to be visited too.
spec fn owes(
    fs: Seq<Seq<usize>>,
    shown: Seq<bool>,
    start: usize,
    x: int,
    p: usize,
) -> bool {
    near(fs, shown, start, x as usize) && fs[x].contains(p) && !shown[p as int]
}

#[verifier::rlimit(40)]
proof fn lemma_visited_covers(
    ps: Seq<Seq<usize>>,
    shown: Seq<bool>,
    stash: Seq<bool>,
    stack: Seq<(usize, u32)>,
    seen: Seq<bool>,
    start: usize,
)
    requires
        history::in_range(ps),
        shown.len() == ps.len() <= usize::MAX,
        stash.len() == ps.len(),
        seen.len() == ps.len(),
        start < ps.len(),
        junction_stack(followed_lists(ps, stash), shown, stack, start),
        seen[start as int] || waits(stack, start),
        forall|x: int| 0 <= x < seen.len() && #[trigger] seen[x] ==> exists|steps: nat|
            steps <= 100 && #[trigger] way(followed_lists(ps, stash), shown, start, x as usize, steps),
        forall|x: int, p: usize|
            0 <= x < seen.len() && seen[x] && #[trigger] owes(followed_lists(ps, stash), shown, start, x, p)
                ==> seen[p as int] || waits(stack, p),
    ensures
        ({
            let r = traverse::visited_from(ps, shown, stash, stack, seen);
            &&& r.len() == ps.len()
            &&& r[start as int]
            &&& forall|x: int| 0 <= x < r.len() && #[trigger] r[x] ==> exists|steps: nat|
                steps <= 100 && #[trigger] way(followed_lists(ps, stash), shown, start, x as usize, steps)
            &&& forall|x: int, p: usize|
                0 <= x < r.len() && r[x] && #[trigger] owes(followed_lists(ps, stash), shown, start, x, p)
                    ==> r[p as int]
        }),
    decreases history::outside(seen), stack.len(),
{
    let fs = followed_lists(ps, stash);
    if stack.len() > 0 {
        let c = stack.last().0;
        let depth = stack.last().1;
        let rest = stack.drop_last();
        assert(stack[stack.len() - 1] == (c, depth));
        assert(junction_stack(fs, shown, rest, start)) by {
            assert(forall|i: int| 0 <= i < rest.len() ==> rest[i] == stack[i]);
        }
        if waits(stack, start) {
            lemma_waits_drop(stack, start);
        }
        assert forall|x: int, p: usize|
            0 <= x < seen.len() && seen[x] && #[trigger] owes(
                fs,
                shown,
                start,
                x,
                p,
            ) implies seen[p as int] || waits(rest, p) || (p == c && depth <= 100) by {
            if waits(stack, p) {
                lemma_waits_drop(stack, p);
            }
        }
        if depth > traverse::MAX_DEPTH || traverse::settled(seen, c) {
            lemma_visited_covers(ps, shown, stash, rest, seen, start);
        } else {
            let followed = traverse::real_parents(ps[c as int], stash[c as int]);
            assert(followed =~= fs[c as int]);
            let more = traverse::hidden(followed, shown, depth);
            let next = rest + more;
            let now = seen.update(c as int, true);
            history::lemma_outside_update(seen, c as int);
            lemma_hidden_entries(followed, shown, depth);
            assert forall|i: int| 0 <= i < more.len() implies {
                let e = #[trigger] more[i];
                &&& e.0 < ps.len()
                &&& way(fs, shown, start, e.0, e.1 as nat)
                &&& (e.1 == 0 || !shown[e.0 as int])
            } by {
                let p = more[i].0;
                let k = choose|k: int| 0 <= k < followed.len() && followed[k] == p;
                assert(ps[c as int][k] == p);
                assert(p < ps.len());
                lemma_way_step(fs, shown, start, c, depth as nat, p);
            }
            assert(junction_stack(fs, shown, next, start)) by {
                assert forall|i: int| 0 <= i < next.len() implies {
                    let e = #[trigger] next[i];
                    &&& e.0 < ps.len()
                    &&& way(fs, shown, start, e.0, e.1 as nat)
                    &&& (e.1 == 0 || !shown[e.0 as int])
                } by {
                    if i < rest.len() {
                        assert(next[i] == rest[i]);
                    } else {
                        assert(next[i] == more[i - rest.len()]);
                    }
                }
            }
            if waits(rest, start) {
                lemma_waits_append(rest, more, start);
            }
            assert forall|x: int, p: usize|
                0 <= x < now.len() && now[x] && #[trigger] owes(
                    fs,
                    shown,
                    start,
                    x,
                    p,
                ) implies now[p as int] || waits(next, p) by {
                if x == c {
                    let k = choose|k: int| 0 <= k < fs[x].len() && fs[x][k] == p;
                    assert(ps[x][k] == p);
                    assert(ps[x][k] < ps.len());
                    assert(followed.contains(p));
                    lemma_near_way(fs, shown, start, c, depth as nat);
                    let i = choose|i: int| 0 <= i < more.len() && (#[trigger] more[i]).0 == p;
                    assert(more[i].1 <= 100);
                    assert(waits(more, p));
                    lemma_waits_append(rest, more, p);
                } else {
                    assert(seen[x]);
                    if waits(rest, p) {
                        lemma_waits_append(rest, more, p);
                    }
                }
            }
            assert forall|x: int| 0 <= x < now.len() && #[trigger] now[x] implies exists|
                steps: nat,
            |
                steps <= 100 && #[trigger] way(followed_lists(ps, stash), shown, start, x as usize, steps) by {
                if x != c {
                    assert(seen[x]);
                } else {
                    let steps = depth as nat;
                    assert(x as usize == c);
                    assert(steps <= 100);
                    assert(way(followed_lists(ps, stash), shown, start, x as usize, steps));
                }
            }
            lemma_visited_covers(ps, shown, stash, next, now, start);
        }
    }
}

proof fn lemma_visited(
    ps: Seq<Seq<usize>>,
    shown: Seq<bool>,
    stash: Seq<bool>,
    start: usize,
)
    requires
        history::in_range(ps),
        shown.len() == ps.len() <= usize::MAX,
        stash.len() == ps.len(),
        start < ps.len(),
    ensures
        ({
            let r = traverse::visited(ps, shown, stash, start);
            &&& r.len() == ps.len()
            &&& r[start as int]
            &&& forall|x: int| 0 <= x < r.len() && #[trigger] r[x] ==> exists|steps: nat|
                steps <= 100 && #[trigger] way(followed_lists(ps, stash), shown, start, x as usize, steps)
            &&& forall|x: int, p: usize|
                0 <= x < r.len() && r[x] && #[trigger] owes(followed_lists(ps, stash), shown, start, x, p)
                    ==> r[p as int]
        }),
{
    let stack = seq![(start, 0u32)];
    lemma_way_start(followed_lists(ps, stash), shown, start);
    assert(stack[0] == (start, 0u32));
    assert(waits(stack, start));
    lemma_visited_covers(ps, shown, stash, stack, traverse::nothing(ps.len()), start);
}

/// A walk for junctions comes to every commit behind its start that a nearby path leads to, with
/// no shown commit in between.
proof fn lemma_visits_nearby(
    ps: Seq<Seq<usize>>,
    shown: Seq<bool>,
    stash: Seq<bool>,
    path: Seq<usize>,
    start: usize,
    c: usize,
    k: int,
)
    requires
        history::in_range(ps),
        shown.len() == ps.len() <= usize::MAX,
        stash.len() == ps.len(),
        leads_nearby(followed_lists(ps, stash), shown, path, start, c),
        !shown[c as int],
        0 <= k < path.len(),
    ensures
        traverse::visited(ps, shown, stash, start)[path[k] as int],
    decreases k,
{
    let fs = followed_lists(ps, stash);
    assert(path[0] < fs.len());
    lemma_visited(ps, shown, stash, start);
    if k > 0 {
        lemma_visits_nearby(ps, shown, stash, path, start, c, k - 1);
        assert(path[k] < fs.len());
        assert(path[k - 1] < fs.len());
        assert(fs[path[k - 1] as int].contains(path[k]));
        assert(!shown[path[k] as int]);
        assert(near(fs, shown, start, path[k - 1]));
        assert(owes(followed_lists(ps, stash), shown, start, path[k - 1] as int, path[k]));
    }
}

// ---------------------------------------------------------------------------------------------
// The walk to a shown commit
// ---------------------------------------------------------------------------------------------

spec fn leading_stack(
    ps: Seq<Seq<usize>>,
    shown: Seq<bool>,
    stack: Seq<(usize, u32)>,
    start: usize,
) -> bool {
    forall|i: int|
        0 <= i < stack.len() ==> {
            let e = #[trigger] stack[i];
            e.0 < ps.len() && way(ps, shown, start, e.0, e.1 as nat)
        }
}

#[verifier::rlimit(40)]
proof fn lemma_leads_covers(
    ps: Seq<Seq<usize>>,
    shown: Seq<bool>,
    stack: Seq<(usize, u32)>,
    seen: Seq<bool>,
    start: usize,
    path: Seq<usize>,
    c: usize,
)
    requires
        history::in_range(ps),
        shown.len() == ps.len() <= usize::MAX,
        seen.len() == ps.len(),
        leads_nearby(ps, shown, path, start, c),
        shown[c as int],
        leading_stack(ps, shown, stack, start),
        seen[start as int] || waits(stack, start),
        forall|x: int| 0 <= x < seen.len() && #[trigger] seen[x] ==> !shown[x],
        forall|x: int, p: usize|
            0 <= x < seen.len() && seen[x] && near(ps, shown, start, x as usize)
                && #[trigger] ps[x].contains(p) ==> seen[p as int] || waits(stack, p),
    ensures
        traverse::leads_from(ps, shown, stack, seen),
    decreases history::outside(seen), stack.len(),
{
    assert(path[0] < ps.len());
    if stack.len() == 0 {
        lemma_closed_along(ps, shown, seen, start, path, c, path.len() - 1);
    } else {
        let x = stack.last().0;
        let depth = stack.last().1;
        let rest = stack.drop_last();
        assert(stack[stack.len() - 1] == (x, depth));
        assert(leading_stack(ps, shown, rest, start)) by {
            assert(forall|i: int| 0 <= i < rest.len() ==> rest[i] == stack[i]);
        }
        if waits(stack, start) {
            lemma_waits_drop(stack, start);
        }
        assert forall|y: int, p: usize|
            0 <= y < seen.len() && seen[y] && near(ps, shown, start, y as usize)
                && #[trigger] ps[y].contains(p) implies seen[p as int] || waits(rest, p) || (p == x
            && depth <= 100) by {
            if waits(stack, p) {
                lemma_waits_drop(stack, p);
            }
        }
        if depth > traverse::MAX_DEPTH || traverse::settled(seen, x) {
            lemma_leads_covers(ps, shown, rest, seen, start, path, c);
        } else if !shown[x as int] {
            let more = traverse::deeper(ps[x as int], depth);
            let next = rest + more;
            let now = seen.update(x as int, true);
            history::lemma_outside_update(seen, x as int);
            assert(leading_stack(ps, shown, next, start)) by {
                assert forall|i: int| 0 <= i < next.len() implies {
                    let e = #[trigger] next[i];
                    e.0 < ps.len() && way(ps, shown, start, e.0, e.1 as nat)
                } by {
                    if i < rest.len() {
                        assert(next[i] == rest[i]);
                    } else {
                        let k = i - rest.len();
                        assert(next[i] == more[k]);
                        assert(more[k].0 == ps[x as int][k]);
                        lemma_way_step(ps, shown, start, x, depth as nat, ps[x as int][k]);
                    }
                }
            }
            if waits(rest, start) {
                lemma_waits_append(rest, more, start);
            }
            assert forall|y: int, p: usize|
                0 <= y < now.len() && now[y] && near(ps, shown, start, y as usize)
                    && #[trigger] ps[y].contains(p) implies now[p as int] || waits(next, p) by {
                if y == x {
                    lemma_near_way(ps, shown, start, x, depth as nat);
                    let k = choose|k: int| 0 <= k < ps[y].len() && ps[y][k] == p;
                    assert(more[k].0 == p && more[k].1 <= 100);
                    assert(waits(more, p));
                    lemma_waits_append(rest, more, p);
                } else {
                    assert(seen[y]);
                    if waits(rest, p) {
                        lemma_waits_append(rest, more, p);
                    }
                }
            }
            lemma_leads_covers(ps, shown, next, now, start, path, c);
        }
    }
}

proof fn lemma_closed_along(
    ps: Seq<Seq<usize>>,
    shown: Seq<bool>,
    seen: Seq<bool>,
    start: usize,
    path: Seq<usize>,
    c: usize,
    k: int,
)
    requires
        seen.len() == ps.len(),
        leads_nearby(ps, shown, path, start, c),
        seen[start as int],
        forall|x: int, p: usize|
            0 <= x < seen.len() && seen[x] && near(ps, shown, start, x as usize)
                && #[trigger] ps[x].contains(p) ==> seen[p as int],
        0 <= k < path.len(),
    ensures
        seen[path[k] as int],
    decreases k,
{
    if k > 0 {
        lemma_closed_along(ps, shown, seen, start, path, c, k - 1);
        assert(path[k - 1] < ps.len());
        assert(path[k] < ps.len());
        assert(near(ps, shown, start, path[k - 1]));
        assert(ps[path[k - 1] as int].contains(path[k]));
    }
}

/// A commit leads to a shown commit wherever a nearby path does.
proof fn lemma_leads_nearby(
    ps: Seq<Seq<usize>>,
    shown: Seq<bool>,
    path: Seq<usize>,
    start: usize,
    c: usize,
)
    requires
        history::in_range(ps),
        shown.len() == ps.len() <= usize::MAX,
        leads_nearby(ps, shown, path, start, c),
        shown[c as int],
    ensures
        traverse::leads_to_shown(ps, shown, start),
{
    assert(path[0] < ps.len());
    let stack = seq![(start, 0u32)];
    lemma_way_start(ps, shown, start);
    assert(stack[0] == (start, 0u32));
    assert(waits(stack, start));
    lemma_leads_covers(ps, shown, stack, traverse::nothing(ps.len()), start, path, c);
}

/// Where a commit leads to a shown one, a path of at most a hundred steps does.
proof fn lemma_leads_by_path(
    ps: Seq<Seq<usize>>,
    shown: Seq<bool>,
    stack: Seq<(usize, u32)>,
    seen: Seq<bool>,
    start: usize,
)
    requires
        history::in_range(ps),
        shown.len() == ps.len(),
        seen.len() == ps.len(),
        leading_stack(ps, shown, stack, start),
        traverse::leads_from(ps, shown, stack, seen),
    ensures
        exists|path: Seq<usize>, c: usize|
            #[trigger] leads(ps, shown, path, start, c) && shown[c as int] && path.len() <= 101,
    decreases history::outside(seen), stack.len(),
{
    let x = stack.last().0;
    let depth = stack.last().1;
    let rest = stack.drop_last();
    assert(stack[stack.len() - 1] == (x, depth));
    assert(leading_stack(ps, shown, rest, start)) by {
        assert(forall|i: int| 0 <= i < rest.len() ==> rest[i] == stack[i]);
    }
    if depth > traverse::MAX_DEPTH || traverse::settled(seen, x) {
        lemma_leads_by_path(ps, shown, rest, seen, start);
    } else if shown[x as int] {
        let path = choose|path: Seq<usize>|
            #[trigger] leads(ps, shown, path, start, x) && path.len() == depth + 1;
        assert(leads(ps, shown, path, start, x));
    } else {
        let more = traverse::deeper(ps[x as int], depth);
        let next = rest + more;
        history::lemma_outside_update(seen, x as int);
        assert(leading_stack(ps, shown, next, start)) by {
            assert forall|i: int| 0 <= i < next.len() implies {
                let e = #[trigger] next[i];
                e.0 < ps.len() && way(ps, shown, start, e.0, e.1 as nat)
            } by {
                if i < rest.len() {
                    assert(next[i] == rest[i]);
                } else {
                    let k = i - rest.len();
                    assert(next[i] == more[k]);
                    assert(more[k].0 == ps[x as int][k]);
                    lemma_way_step(ps, shown, start, x, depth as nat, ps[x as int][k]);
                }
            }
        }
        lemma_leads_by_path(ps, shown, next, seen.update(x as int, true), start);
    }
}

// ---------------------------------------------------------------------------------------------
// Junctions
// ---------------------------------------------------------------------------------------------

proof fn lemma_leading_two(
    ps: Seq<Seq<usize>>,
    shown: Seq<bool>,
    parents: Seq<usize>,
    i: int,
    j: int,
)
    requires
        0 <= i < j < parents.len(),
        traverse::leads_to_shown(ps, shown, parents[i]),
        traverse::leads_to_shown(ps, shown, parents[j]),
    ensures
        traverse::leading(ps, shown, parents) > 1,
    decreases parents.len(),
{
    let before = parents.drop_last();
    if j < before.len() {
        assert(before[i] == parents[i] && before[j] == parents[j]);
        lemma_leading_two(ps, shown, before, i, j);
    } else {
        assert(before[i] == parents[i]);
        lemma_leading_one(ps, shown, before, i);
    }
}

proof fn lemma_leading_one(ps: Seq<Seq<usize>>, shown: Seq<bool>, parents: Seq<usize>, i: int)
    requires
        0 <= i < parents.len(),
        traverse::leads_to_shown(ps, shown, parents[i]),
    ensures
        traverse::leading(ps, shown, parents) > 0,
    decreases parents.len(),
{
    let before = parents.drop_last();
    if i < before.len() {
        assert(before[i] == parents[i]);
        lemma_leading_one(ps, shown, before, i);
    }
}

proof fn lemma_two_lead(ps: Seq<Seq<usize>>, shown: Seq<bool>, parents: Seq<usize>)
    requires
        traverse::leading(ps, shown, parents) > 1,
    ensures
        exists|i: int, j: int|
            0 <= i < j < parents.len() && traverse::leads_to_shown(ps, shown, #[trigger] parents[i])
                && traverse::leads_to_shown(ps, shown, #[trigger] parents[j]),
    decreases parents.len(),
{
    let before = parents.drop_last();
    if traverse::leading(ps, shown, before) > 1 {
        lemma_two_lead(ps, shown, before);
        let (i, j) = choose|i: int, j: int|
            0 <= i < j < before.len() && traverse::leads_to_shown(ps, shown, #[trigger] before[i])
                && traverse::leads_to_shown(ps, shown, #[trigger] before[j]);
        assert(parents[i] == before[i] && parents[j] == before[j]);
    } else {
        lemma_one_leads(ps, shown, before);
        let i = choose|i: int|
            0 <= i < before.len() && traverse::leads_to_shown(ps, shown, #[trigger] before[i]);
        assert(parents[i] == before[i]);
        assert(traverse::leads_to_shown(ps, shown, parents[parents.len() - 1]));
    }
}

proof fn lemma_one_leads(ps: Seq<Seq<usize>>, shown: Seq<bool>, parents: Seq<usize>)
    requires
        traverse::leading(ps, shown, parents) > 0,
    ensures
        exists|i: int|
            0 <= i < parents.len() && traverse::leads_to_shown(ps, shown, #[trigger] parents[i]),
    decreases parents.len(),
{
    let before = parents.drop_last();
    if traverse::leading(ps, shown, before) > 0 {
        lemma_one_leads(ps, shown, before);
        let i = choose|i: int|
            0 <= i < before.len() && traverse::leads_to_shown(ps, shown, #[trigger] before[i]);
        assert(parents[i] == before[i]);
    } else {
        assert(traverse::leads_to_shown(ps, shown, parents[parents.len() - 1]));
    }
}

/// Every merge between shown commits is in the condensed graph: a commit that is not shown,
/// that a nearby path leads to from a shown commit, through any of the parents (from a stash the
/// first one alone) and with no shown commit in between, and from two of whose parents nearby paths lead to shown commits.
pub proof fn law_merges_in_between_are_kept(
    h: Seq<CommitRecord>,
    nodes: Seq<Option<NodeView>>,
    c: usize,
    from: Seq<usize>,
    i: int,
    first: Seq<usize>,
    j: int,
    second: Seq<usize>,
)
    requires
        history::in_range(history::parent_lists(h)),
        nodes.len() == h.len() <= usize::MAX,
        c < h.len(),
        nodes[c as int] is None,
        leads_nearby(
            followed_lists(
                history::parent_lists(h),
                Seq::new(nodes.len(), |x: int| nodes[x] matches Some(v) && v.is_stash),
            ),
            Seq::new(nodes.len(), |x: int| nodes[x] is Some),
            from,
            from[0],
            c,
        ),
        nodes[from[0] as int] is Some,
        0 <= i < j < history::parent_lists(h)[c as int].len(),
        leads_nearby(
            history::parent_lists(h),
            Seq::new(nodes.len(), |x: int| nodes[x] is Some),
            first,
            history::parent_lists(h)[c as int][i],
            first.last(),
        ),
        nodes[first.last() as int] is Some,
        leads_nearby(
            history::parent_lists(h),
            Seq::new(nodes.len(), |x: int| nodes[x] is Some),
            second,
            history::parent_lists(h)[c as int][j],
            second.last(),
        ),
        nodes[second.last() as int] is Some,
    ensures
        condensed::condensed_graph(h, nodes).nodes[c as int] is Some,
{
    let ps = history::parent_lists(h);
    let shown = condensed::shown_set(nodes);
    let stash = condensed::stash_set(nodes);
    assert(shown =~= Seq::new(nodes.len(), |x: int| nodes[x] is Some));
    assert(stash =~= Seq::new(nodes.len(), |x: int| nodes[x] matches Some(v) && v.is_stash));
    let s = from[0];
    assert(s < followed_lists(ps, stash).len());
    assert(first[first.len() - 1] < ps.len());
    assert(second[second.len() - 1] < ps.len());
    lemma_visits_nearby(ps, shown, stash, from, s, c, from.len() - 1);
    lemma_leads_nearby(ps, shown, first, ps[c as int][i], first.last());
    lemma_leads_nearby(ps, shown, second, ps[c as int][j], second.last());
    lemma_leading_two(ps, shown, ps[c as int], i, j);
    assert(traverse::junction(ps, shown, c as int));
    assert(traverse::visited(ps, shown, stash, (s as int) as usize)[c as int]);
    assert(traverse::condensed(ps, shown, stash, c as int));
    assert(condensed::kept_set(ps, nodes)[c as int]);
}

/// A commit of the condensed graph that is not shown is a merge: a path of at most a hundred steps
/// leads to it from a shown commit, with no shown commit in between, and from two of its parents
/// paths of at most a hundred steps lead to shown commits.
pub proof fn law_kept_merges_are_in_between(
    h: Seq<CommitRecord>,
    nodes: Seq<Option<NodeView>>,
    c: usize,
)
    requires
        history::in_range(history::parent_lists(h)),
        nodes.len() == h.len() <= usize::MAX,
        c < h.len(),
        nodes[c as int] is None,
        condensed::condensed_graph(h, nodes).nodes[c as int] is Some,
    ensures
        ({
            let ps = history::parent_lists(h);
            let shown = Seq::new(nodes.len(), |x: int| nodes[x] is Some);
            let stash = Seq::new(nodes.len(), |x: int| nodes[x] matches Some(v) && v.is_stash);
            &&& exists|path: Seq<usize>, s: usize|
                #[trigger] leads(followed_lists(ps, stash), shown, path, s, c) && shown[s as int] && path.len() <= 101
            &&& exists|i: int, j: int|
                {
                    &&& 0 <= i < j < ps[c as int].len()
                    &&& exists|path: Seq<usize>, d: usize|
                        #[trigger] leads(ps, shown, path, #[trigger] ps[c as int][i], d)
                            && shown[d as int] && path.len() <= 101
                    &&& exists|path: Seq<usize>, d: usize|
                        #[trigger] leads(ps, shown, path, #[trigger] ps[c as int][j], d)
                            && shown[d as int] && path.len() <= 101
                }
        }),
{
    let ps = history::parent_lists(h);
    let shown = condensed::shown_set(nodes);
    let stash = condensed::stash_set(nodes);
    assert(shown =~= Seq::new(nodes.len(), |x: int| nodes[x] is Some));
    assert(stash =~= Seq::new(nodes.len(), |x: int| nodes[x] matches Some(v) && v.is_stash));
    let fs = followed_lists(ps, stash);
    let s = choose|s: int|
        0 <= s < shown.len() && shown[s] && #[trigger] traverse::visited(
            ps,
            shown,
            stash,
            s as usize,
        )[c as int] && traverse::junction(ps, shown, c as int);
    lemma_visited(ps, shown, stash, s as usize);
    let steps = choose|steps: nat|
        steps <= 100 && #[trigger] way(fs, shown, s as usize, c, steps);
    let path = choose|path: Seq<usize>|
        #[trigger] leads(fs, shown, path, s as usize, c) && path.len() == steps + 1;
    assert(leads(fs, shown, path, s as usize, c));
    lemma_two_lead(ps, shown, ps[c as int]);
    let (i, j) = choose|i: int, j: int|
        0 <= i < j < ps[c as int].len() && traverse::leads_to_shown(
            ps,
            shown,
            #[trigger] ps[c as int][i],
        ) && traverse::leads_to_shown(ps, shown, #[trigger] ps[c as int][j]);
    lemma_leads_path(ps, shown, ps[c as int][i]);
    lemma_leads_path(ps, shown, ps[c as int][j]);
}

proof fn lemma_leads_path(ps: Seq<Seq<usize>>, shown: Seq<bool>, start: usize)
    requires
        history::in_range(ps),
        shown.len() == ps.len(),
        start < ps.len(),
        traverse::leads_to_shown(ps, shown, start),
    ensures
        exists|path: Seq<usize>, c: usize|
            #[trigger] leads(ps, shown, path, start, c) && shown[c as int] && path.len() <= 101,
{
    let stack = seq![(start, 0u32)];
    lemma_way_start(ps, shown, start);
    assert(stack[0] == (start, 0u32));
    lemma_leads_by_path(ps, shown, stack, traverse::nothing(ps.len()), start);
}

// ---------------------------------------------------------------------------------------------
// Edges
// ---------------------------------------------------------------------------------------------

spec fn next_stack(
    ps: Seq<Seq<usize>>,
    kept: Seq<bool>,
    stack: Seq<usize>,
    start: usize,
) -> bool {
    forall|i: int|
        0 <= i < stack.len() ==> (#[trigger] stack[i]) < ps.len() && exists|steps: nat| #[trigger]
            way(ps, kept, start, stack[i], steps)
}

spec fn found_by_path(
    ps: Seq<Seq<usize>>,
    kept: Seq<bool>,
    start: usize,
    r: Option<usize>,
) -> bool {
    match r {
        Some(c) => connected(ps, kept, start, c),
        None => true,
    }
}

spec fn connected(ps: Seq<Seq<usize>>, kept: Seq<bool>, a: usize, b: usize) -> bool {
    exists|path: Seq<usize>| #[trigger] leads(ps, kept, path, a, b)
}

proof fn lemma_next_by_path(
    ps: Seq<Seq<usize>>,
    kept: Seq<bool>,
    stack: Seq<usize>,
    seen: Seq<bool>,
    start: usize,
)
    requires
        history::in_range(ps),
        kept.len() == ps.len(),
        seen.len() == ps.len(),
        next_stack(ps, kept, stack, start),
    ensures
        found_by_path(ps, kept, start, traverse::next_from(ps, kept, stack, seen)),
    decreases history::outside(seen), stack.len(),
{
    if stack.len() > 0 {
        let x = stack.last();
        let rest = stack.drop_last();
        assert(stack[stack.len() - 1] == x);
        assert(next_stack(ps, kept, rest, start)) by {
            assert(forall|i: int| 0 <= i < rest.len() ==> rest[i] == stack[i]);
        }
        let steps = choose|steps: nat| #[trigger] way(ps, kept, start, stack[stack.len() - 1], steps);
        assert(way(ps, kept, start, x, steps));
        if traverse::settled(seen, x) {
            lemma_next_by_path(ps, kept, rest, seen, start);
            assert(traverse::next_from(ps, kept, stack, seen) == traverse::next_from(
                ps,
                kept,
                rest,
                seen,
            ));
        } else if kept[x as int] {
            let path = choose|path: Seq<usize>|
                #[trigger] leads(ps, kept, path, start, x) && path.len() == steps + 1;
            assert(leads(ps, kept, path, start, x));
            assert(traverse::next_from(ps, kept, stack, seen) == Some(x));
            assert(connected(ps, kept, start, x));
        } else {
            let next = rest + ps[x as int];
            history::lemma_outside_update(seen, x as int);
            assert forall|i: int| 0 <= i < next.len() implies (#[trigger] next[i]) < ps.len()
                && exists|steps: nat| #[trigger] way(ps, kept, start, next[i], steps) by {
                if i < rest.len() {
                    assert(next[i] == rest[i]);
                } else {
                    let p = ps[x as int][i - rest.len()];
                    assert(next[i] == p);
                    lemma_way_step(ps, kept, start, x, steps, p);
                    assert(way(ps, kept, start, next[i], steps + 1));
                }
            }
            lemma_next_by_path(ps, kept, next, seen.update(x as int, true), start);
            assert(traverse::next_from(ps, kept, stack, seen) == traverse::next_from(
                ps,
                kept,
                next,
                seen.update(x as int, true),
            ));
        }
    } else {
        assert(traverse::next_from(ps, kept, stack, seen) is None);
    }
}

proof fn lemma_next_path(ps: Seq<Seq<usize>>, kept: Seq<bool>, start: usize)
    requires
        history::in_range(ps),
        kept.len() == ps.len(),
        start < ps.len(),
    ensures
        traverse::next_kept(ps, kept, start) matches Some(c) ==> exists|path: Seq<usize>|
            #[trigger] leads(ps, kept, path, start, c),
{
    lemma_way_start(ps, kept, start);
    let stack = seq![start];
    assert(stack[0] == start);
    assert(way(ps, kept, start, stack[0], 0));
    lemma_next_by_path(ps, kept, stack, traverse::nothing(ps.len()), start);
}

/// Whether `c` reaches a commit of `kept`.
pub open spec fn alive(ps: Seq<Seq<usize>>, kept: Seq<bool>, c: usize) -> bool {
    exists|x: int|
        0 <= x < ps.len() && kept[x] && #[trigger] history::reaches(ps, c as int, x)
}

/// Where the topmost entry that is alive stands on a stack, and that a commit behind a walk which
/// is alive leads to it.
spec fn on_the_way(
    ps: Seq<Seq<usize>>,
    kept: Seq<bool>,
    stack: Seq<usize>,
    seen: Seq<bool>,
    e: usize,
    t: int,
) -> bool {
    &&& 0 <= t < stack.len()
    &&& stack[t] == e
    &&& seen.len() == ps.len()
    &&& forall|i: int| 0 <= i < stack.len() ==> (#[trigger] stack[i]) < ps.len()
    &&& forall|i: int| t < i < stack.len() ==> !alive(ps, kept, #[trigger] stack[i])
    &&& forall|x: int|
        0 <= x < seen.len() && #[trigger] seen[x] && alive(ps, kept, x as usize)
            ==> history::descends(ps, x, e as int)
}

proof fn lemma_dead_parents(ps: Seq<Seq<usize>>, kept: Seq<bool>, x: usize, k: int)
    requires
        history::in_range(ps),
        x < ps.len(),
        !alive(ps, kept, x),
        0 <= k < ps[x as int].len(),
    ensures
        !alive(ps, kept, ps[x as int][k]),
{
    let p = ps[x as int][k];
    if alive(ps, kept, p) {
        let y = choose|y: int|
            0 <= y < ps.len() && kept[y] && #[trigger] history::reaches(ps, p as int, y);
        history::lemma_descends_parent(ps, x as int, k, y);
        assert(history::reaches(ps, x as int, y));
    }
}

/// One step of the walk at an entry that is not alive.
proof fn lemma_dead_step(
    ps: Seq<Seq<usize>>,
    kept: Seq<bool>,
    stack: Seq<usize>,
    seen: Seq<bool>,
    e: usize,
    t: int,
) -> (r: (Seq<usize>, Seq<bool>))
    requires
        history::in_range(ps),
        kept.len() == ps.len() <= usize::MAX,
        on_the_way(ps, kept, stack, seen, e, t),
        t < stack.len() - 1,
    ensures
        on_the_way(ps, kept, r.0, r.1, e, t),
        traverse::next_from(ps, kept, stack, seen) == traverse::next_from(ps, kept, r.0, r.1),
        history::outside(r.1) < history::outside(seen) || (r.1 == seen && r.0.len() < stack.len()),
{
    let x = stack.last();
    let rest = stack.drop_last();
    assert(stack[stack.len() - 1] == x);
    assert(!alive(ps, kept, x));
    assert(forall|i: int| 0 <= i < rest.len() ==> rest[i] == stack[i]);
    if traverse::settled(seen, x) {
        (rest, seen)
    } else {
        if kept[x as int] {
            history::lemma_reaches_self(ps, x as int);
            assert(alive(ps, kept, x));
        }
        let next = rest + ps[x as int];
        let now = seen.update(x as int, true);
        history::lemma_outside_update(seen, x as int);
        assert forall|i: int| 0 <= i < next.len() implies (#[trigger] next[i]) < ps.len() && (t < i
            ==> !alive(ps, kept, next[i])) by {
            if i < rest.len() {
                assert(next[i] == rest[i]);
            } else {
                assert(next[i] == ps[x as int][i - rest.len()]);
                lemma_dead_parents(ps, kept, x, i - rest.len());
            }
        }
        assert forall|y: int|
            0 <= y < now.len() && #[trigger] now[y] && alive(
                ps,
                kept,
                y as usize,
            ) implies history::descends(ps, y, e as int) by {
            if y != x {
                assert(seen[y]);
            }
        }
        (next, now)
    }
}

/// Two walks with the same topmost entry that is alive find the same commit.
proof fn lemma_same_way(
    ps: Seq<Seq<usize>>,
    kept: Seq<bool>,
    a: Seq<usize>,
    seen_a: Seq<bool>,
    ta: int,
    b: Seq<usize>,
    seen_b: Seq<bool>,
    tb: int,
    e: usize,
)
    requires
        history::in_range(ps),
        history::acyclic(ps),
        kept.len() == ps.len() <= usize::MAX,
        on_the_way(ps, kept, a, seen_a, e, ta),
        on_the_way(ps, kept, b, seen_b, e, tb),
        alive(ps, kept, e),
    ensures
        traverse::next_from(ps, kept, a, seen_a) == traverse::next_from(ps, kept, b, seen_b),
    decreases history::outside(seen_a) + history::outside(seen_b), a.len() + b.len(),
{
    if ta < a.len() - 1 {
        let (next, now) = lemma_dead_step(ps, kept, a, seen_a, e, ta);
        lemma_same_way(ps, kept, next, now, ta, b, seen_b, tb, e);
    } else if tb < b.len() - 1 {
        let (next, now) = lemma_dead_step(ps, kept, b, seen_b, e, tb);
        lemma_same_way(ps, kept, a, seen_a, ta, next, now, tb, e);
    } else {
        assert(a.last() == e && b.last() == e);
        assert(a[ta] < ps.len());
        if seen_a[e as int] || seen_b[e as int] {
            assert(history::descends(ps, e as int, e as int));
        }
        if !kept[e as int] {
            let k = lemma_last_alive(ps, kept, e);
            let p = ps[e as int][k];
            history::lemma_reaches_self(ps, p as int);
            history::lemma_descends_parent(ps, e as int, k, p as int);
            lemma_alive_step(ps, kept, a, seen_a, e, k);
            lemma_alive_step(ps, kept, b, seen_b, e, k);
            history::lemma_outside_update(seen_a, e as int);
            history::lemma_outside_update(seen_b, e as int);
            lemma_same_way(
                ps,
                kept,
                a.drop_last() + ps[e as int],
                seen_a.update(e as int, true),
                a.len() - 1 + k,
                b.drop_last() + ps[e as int],
                seen_b.update(e as int, true),
                b.len() - 1 + k,
                p,
            );
        }
    }
}

/// Of the parents of a commit that is alive and not kept itself, the last one that is alive.
proof fn lemma_last_alive(ps: Seq<Seq<usize>>, kept: Seq<bool>, e: usize) -> (k: int)
    requires
        history::in_range(ps),
        kept.len() == ps.len(),
        e < ps.len(),
        !kept[e as int],
        alive(ps, kept, e),
    ensures
        0 <= k < ps[e as int].len(),
        alive(ps, kept, ps[e as int][k]),
        forall|i: int| k < i < ps[e as int].len() ==> !alive(ps, kept, #[trigger] ps[e as int][i]),
{
    let own = ps[e as int];
    let y = choose|y: int|
        0 <= y < ps.len() && kept[y] && #[trigger] history::reaches(ps, e as int, y);
    let steps = choose|steps: nat| #[trigger] history::reaches_in(ps, e as int, y, steps);
    let j = choose|j: int|
        0 <= j < own.len() && history::reaches_in(
            ps,
            #[trigger] own[j] as int,
            y,
            (steps - 1) as nat,
        );
    assert(history::reaches(ps, own[j] as int, y));
    assert(alive(ps, kept, own[j]));
    lemma_last_of(ps, kept, own, j)
}

proof fn lemma_last_of(ps: Seq<Seq<usize>>, kept: Seq<bool>, own: Seq<usize>, j: int) -> (k: int)
    requires
        0 <= j < own.len(),
        alive(ps, kept, own[j]),
    ensures
        j <= k < own.len(),
        alive(ps, kept, own[k]),
        forall|i: int| k < i < own.len() ==> !alive(ps, kept, #[trigger] own[i]),
    decreases own.len() - j,
{
    if exists|i: int| j < i < own.len() && alive(ps, kept, #[trigger] own[i]) {
        let i = choose|i: int| j < i < own.len() && alive(ps, kept, #[trigger] own[i]);
        lemma_last_of(ps, kept, own, i)
    } else {
        j
    }
}

proof fn lemma_alive_step(
    ps: Seq<Seq<usize>>,
    kept: Seq<bool>,
    stack: Seq<usize>,
    seen: Seq<bool>,
    e: usize,
    k: int,
)
    requires
        history::in_range(ps),
        kept.len() == ps.len() <= usize::MAX,
        stack.len() > 0,
        e < ps.len(),
        on_the_way(ps, kept, stack, seen, e, stack.len() - 1),
        0 <= k < ps[e as int].len(),
        forall|i: int| k < i < ps[e as int].len() ==> !alive(ps, kept, #[trigger] ps[e as int][i]),
    ensures
        on_the_way(
            ps,
            kept,
            stack.drop_last() + ps[e as int],
            seen.update(e as int, true),
            ps[e as int][k],
            stack.len() - 1 + k,
        ),
{
    let rest = stack.drop_last();
    let next = rest + ps[e as int];
    let now = seen.update(e as int, true);
    let p = ps[e as int][k];
    let t = stack.len() - 1 + k;
    assert(next[t] == p);
    assert forall|i: int| 0 <= i < next.len() implies (#[trigger] next[i]) < ps.len() && (t < i
        ==> !alive(ps, kept, next[i])) by {
        if i < rest.len() {
            assert(next[i] == stack[i]);
        } else {
            assert(next[i] == ps[e as int][i - rest.len()]);
        }
    }
    history::lemma_reaches_self(ps, p as int);
    history::lemma_descends_parent(ps, e as int, k, p as int);
    assert forall|x: int|
        0 <= x < now.len() && #[trigger] now[x] && alive(
            ps,
            kept,
            x as usize,
        ) implies history::descends(ps, x, p as int) by {
        if x != e {
            assert(seen[x]);
            history::lemma_reaches_cases(ps, x, e as int);
            history::lemma_reaches_transitive(ps, x, e as int, p as int);
        }
    }
}

/// Behind a commit that is kept nothing is searched. Behind another one the search goes the way of
/// the last of its parents that reaches a commit which is kept.
pub proof fn law_last_parent_goes_first(
    ps: Seq<Seq<usize>>,
    kept: Seq<bool>,
    c: usize,
    k: int,
)
    requires
        history::in_range(ps),
        history::acyclic(ps),
        kept.len() == ps.len() <= usize::MAX,
        c < ps.len(),
    ensures
        kept[c as int] ==> traverse::next_kept(ps, kept, c) == Some(c),
        !kept[c as int] && 0 <= k < ps[c as int].len() && alive(ps, kept, ps[c as int][k]) && (forall|
            i: int,
        |
            k < i < ps[c as int].len() ==> !alive(ps, kept, #[trigger] ps[c as int][i]))
            ==> traverse::next_kept(ps, kept, c) == traverse::next_kept(
            ps,
            kept,
            ps[c as int][k],
        ),
{
    let none = traverse::nothing(ps.len());
    assert(seq![c].last() == c);
    if !kept[c as int] && 0 <= k < ps[c as int].len() && alive(ps, kept, ps[c as int][k]) && (forall|
        i: int,
    |
        k < i < ps[c as int].len() ==> !alive(ps, kept, #[trigger] ps[c as int][i])) {
        let p = ps[c as int][k];
        assert(seq![c][0] == c);
        assert(seq![p][0] == p);
        assert(on_the_way(ps, kept, seq![c], none, c, 0));
        assert(on_the_way(ps, kept, seq![p], none, p, 0));
        lemma_alive_step(ps, kept, seq![c], none, c, k);
        lemma_same_way(
            ps,
            kept,
            seq![c].drop_last() + ps[c as int],
            none.update(c as int, true),
            k,
            seq![p],
            none,
            0,
            p,
        );
    }
}

proof fn lemma_connections_hold(
    ps: Seq<Seq<usize>>,
    kept: Seq<bool>,
    parents: Seq<usize>,
    k: int,
    p: usize,
)
    requires
        0 <= k < parents.len(),
        traverse::next_kept(ps, kept, parents[k]) == Some(p),
    ensures
        traverse::connections(ps, kept, parents).contains(p),
        k == 0 ==> traverse::connections(ps, kept, parents)[0] == p,
    decreases parents.len(),
{
    let before = parents.drop_last();
    let had = traverse::connections(ps, kept, before);
    let all = traverse::connections(ps, kept, parents);
    if k < before.len() {
        assert(before[k] == parents[k]);
        lemma_connections_hold(ps, kept, before, k, p);
        let i = choose|i: int| 0 <= i < had.len() && had[i] == p;
        assert(all[i] == had[i]);
        assert(all[0] == had[0]);
    } else {
        if k == 0 {
            assert(before.len() == 0);
            assert(had =~= seq![]);
        }
        if !had.contains(p) {
            assert(all =~= had.push(p));
            assert(all[had.len() as int] == p);
        }
    }
}

proof fn lemma_connections_from(
    ps: Seq<Seq<usize>>,
    kept: Seq<bool>,
    parents: Seq<usize>,
    i: int,
) -> (k: int)
    requires
        0 <= i < traverse::connections(ps, kept, parents).len(),
    ensures
        0 <= k < parents.len(),
        traverse::next_kept(ps, kept, parents[k]) == Some(
            traverse::connections(ps, kept, parents)[i],
        ),
    decreases parents.len(),
{
    let before = parents.drop_last();
    let had = traverse::connections(ps, kept, before);
    let all = traverse::connections(ps, kept, parents);
    if i < had.len() {
        assert(all[i] == had[i]);
        let k = lemma_connections_from(ps, kept, before, i);
        assert(before[k] == parents[k]);
        k
    } else {
        parents.len() - 1
    }
}

/// The parents of a commit in the condensed graph are what its own parents lead to (of a stash
/// the first one alone). A parent that is in the graph is one of them. For any other from which a
/// commit of the graph can be reached, one of them is reached from it with no commit of the graph
/// in between. What the first parent leads to comes first.
pub proof fn law_every_parent_leads_on(
    h: Seq<CommitRecord>,
    nodes: Seq<Option<NodeView>>,
    c: int,
    k: int,
)
    requires
        history::in_range(history::parent_lists(h)),
        nodes.len() == h.len() <= usize::MAX,
        0 <= c < h.len(),
        condensed::condensed_graph(h, nodes).nodes[c] is Some,
        0 <= k < history::parent_lists(h)[c].len(),
        k == 0 || !(nodes[c] matches Some(v) && v.is_stash),
    ensures
        ({
            let ps = history::parent_lists(h);
            let d = condensed::condensed_graph(h, nodes);
            let kept = Seq::new(d.nodes.len(), |x: int| d.nodes[x] is Some);
            let q = ps[c][k];
            &&& kept[q as int] ==> d.parents[c].contains(q)
            &&& alive(ps, kept, q) ==> exists|path: Seq<usize>, p: usize|
                #[trigger] leads(ps, kept, path, q, p) && kept[p as int] && d.parents[c].contains(p)
                    && (k == 0 ==> d.parents[c][0] == p) && (kept[q as int] ==> p == q)
        }),
{
    let ps = history::parent_lists(h);
    let d = condensed::condensed_graph(h, nodes);
    let kept = Seq::new(d.nodes.len(), |x: int| d.nodes[x] is Some);
    lemma_kept(h, nodes);
    let own = traverse::real_parents(ps[c], condensed::stash_set(nodes)[c]);
    let q = ps[c][k];
    assert(q < ps.len());
    assert(own[k] == q);
    traverse::law_next_is_found(ps, kept, q);
    if kept[q as int] {
        assert(seq![q].last() == q);
        assert(traverse::next_kept(ps, kept, q) == Some(q));
        lemma_connections_hold(ps, kept, own, k, q);
        lemma_next_path(ps, kept, q);
    } else if alive(ps, kept, q) {
        let x = choose|x: int|
            0 <= x < ps.len() && kept[x] && #[trigger] history::reaches(ps, q as int, x);
        assert(traverse::next_kept(ps, kept, q) is Some);
        let p = traverse::next_kept(ps, kept, q)->0;
        lemma_next_path(ps, kept, q);
        lemma_connections_hold(ps, kept, own, k, p);
    }
}

proof fn lemma_kept(h: Seq<CommitRecord>, nodes: Seq<Option<NodeView>>)
    requires
        nodes.len() == h.len(),
    ensures
        Seq::new(
            condensed::condensed_graph(h, nodes).nodes.len(),
            |x: int| condensed::condensed_graph(h, nodes).nodes[x] is Some,
        ) == condensed::kept_set(history::parent_lists(h), nodes),
{
    let ps = history::parent_lists(h);
    let d = condensed::condensed_graph(h, nodes);
    let kept = condensed::kept_set(ps, nodes);
    assert forall|x: int| 0 <= x < nodes.len() implies (d.nodes[x] is Some) == #[trigger] kept[x] by {
        if nodes[x] is Some {
            assert(condensed::shown_set(nodes)[x]);
        }
    }
    assert(Seq::new(d.nodes.len(), |x: int| d.nodes[x] is Some) =~= kept);
}

/// An edge of the condensed graph is a path in the history from the child to the parent, with no
/// commit of the graph in between. From a stash it goes through the first parent.
pub proof fn law_edges_are_paths(
    h: Seq<CommitRecord>,
    nodes: Seq<Option<NodeView>>,
    c: int,
    i: int,
)
    requires
        history::in_range(history::parent_lists(h)),
        nodes.len() == h.len() <= usize::MAX,
        0 <= c < h.len(),
        0 <= i < condensed::condensed_graph(h, nodes).parents[c].len(),
    ensures
        ({
            let ps = history::parent_lists(h);
            let d = condensed::condensed_graph(h, nodes);
            let kept = Seq::new(d.nodes.len(), |x: int| d.nodes[x] is Some);
            let p = d.parents[c][i];
            &&& kept[c] && p < h.len() && kept[p as int]
            &&& exists|k: int, path: Seq<usize>|
                {
                    &&& 0 <= k < ps[c].len()
                    &&& (k == 0 || !(nodes[c] matches Some(v) && v.is_stash))
                    &&& #[trigger] leads(ps, kept, path, #[trigger] ps[c][k], p)
                    &&& (kept[ps[c][k] as int] ==> p == ps[c][k])
                }
        }),
{
    let ps = history::parent_lists(h);
    let d = condensed::condensed_graph(h, nodes);
    let kept = Seq::new(d.nodes.len(), |x: int| d.nodes[x] is Some);
    lemma_kept(h, nodes);
    let p = d.parents[c][i];
    let own = traverse::real_parents(ps[c], condensed::stash_set(nodes)[c]);
    let k = lemma_connections_from(ps, kept, own, i);
    assert(own[k] == ps[c][k]);
    assert(ps[c][k] < ps.len());
    traverse::law_next_is_found(ps, kept, ps[c][k]);
    lemma_next_path(ps, kept, ps[c][k]);
    let path = choose|path: Seq<usize>| #[trigger] leads(ps, kept, path, ps[c][k], p);
    if kept[ps[c][k] as int] {
        assert(seq![ps[c][k]].last() == ps[c][k]);
    }
    assert(leads(ps, kept, path, ps[c][k], p));
}

} // verus!
