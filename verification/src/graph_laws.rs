//! What the nodes of a graph tell of their commits, told by the marks that stand at them.

use vstd::prelude::*;

use crate::commit_node::NodeView;
use crate::condensed::CondensedView;
use crate::graph;
use crate::graph::GitGraphviz;
use crate::history;
use crate::history::CommitRecord;
use crate::names;
use crate::nodes;
use crate::nodes::GraphError;
use crate::search;
use crate::snapshot::{MarkKind, MarkView};
use crate::text;
use crate::walk_laws;

verus! {

// ---------------------------------------------------------------------------------------------
// Marks
// ---------------------------------------------------------------------------------------------

/// Whether a mark names a ref.
pub open spec fn names_ref(m: MarkView) -> bool {
    m.kind == MarkKind::Ref || m.kind == MarkKind::Stash
}

/// Whether a ref of the given name stands at `c`.
pub open spec fn ref_at(marks: Seq<MarkView>, c: usize, name: Seq<char>) -> bool {
    exists|i: int|
        0 <= i < marks.len() && names_ref(#[trigger] marks[i]) && marks[i].target == c
            && marks[i].name == name
}

/// Whether a tag of the given name stands at `c`.
pub open spec fn tag_at(marks: Seq<MarkView>, c: usize, name: Seq<char>) -> bool {
    exists|i: int|
        0 <= i < marks.len() && (#[trigger] marks[i]).kind == MarkKind::Tag && marks[i].target == c
            && marks[i].name == name
}

/// Whether a stash stands at `c`.
pub open spec fn stash_at(marks: Seq<MarkView>, c: usize) -> bool {
    exists|i: int|
        0 <= i < marks.len() && (#[trigger] marks[i]).kind == MarkKind::Stash && marks[i].target == c
}

/// Whether any mark stands at `c`.
pub open spec fn mark_at(marks: Seq<MarkView>, c: usize) -> bool {
    exists|i: int| 0 <= i < marks.len() && (#[trigger] marks[i]).target == c
}

/// Whether mark `i` is the last that names a ref as it does.
pub open spec fn is_last(marks: Seq<MarkView>, i: int) -> bool {
    &&& 0 <= i < marks.len()
    &&& names_ref(marks[i])
    &&& forall|j: int|
        i < j < marks.len() && names_ref(#[trigger] marks[j]) ==> marks[j].name != marks[i].name
}

/// Whether the ref of the given name ends at `c`.
pub open spec fn tip_at(marks: Seq<MarkView>, c: usize, name: Seq<char>) -> bool {
    exists|i: int|
        #[trigger] is_last(marks, i) && marks[i].target == c && marks[i].name == name
}

/// Whether the last mark of a checkout stands at `c`.
pub open spec fn checkout_at(marks: Seq<MarkView>, c: usize) -> bool {
    exists|i: int|
        0 <= i < marks.len() && (#[trigger] marks[i]).kind == MarkKind::Checkout && marks[i].target
            == c && forall|j: int|
            i < j < marks.len() ==> (#[trigger] marks[j]).kind != MarkKind::Checkout
}

proof fn lemma_stash_at(marks: Seq<MarkView>, m: MarkView, c: usize)
    ensures
        stash_at(marks.push(m), c) == (stash_at(marks, c) || (m.kind == MarkKind::Stash && m.target
            == c)),
{
    let all = marks.push(m);
    if stash_at(marks, c) {
        let i = choose|i: int|
            0 <= i < marks.len() && (#[trigger] marks[i]).kind == MarkKind::Stash
                && marks[i].target == c;
        assert(all[i] == marks[i]);
    }
    if m.kind == MarkKind::Stash && m.target == c {
        assert(all[marks.len() as int] == m);
    }
    if stash_at(all, c) {
        let i = choose|i: int|
            0 <= i < all.len() && (#[trigger] all[i]).kind == MarkKind::Stash && all[i].target == c;
        if i < marks.len() {
            assert(marks[i] == all[i]);
        }
    }
}

proof fn lemma_checkout_at(marks: Seq<MarkView>, m: MarkView, c: usize)
    ensures
        checkout_at(marks.push(m), c) == if m.kind == MarkKind::Checkout {
            m.target == c
        } else {
            checkout_at(marks, c)
        },
{
    let all = marks.push(m);
    let n = marks.len() as int;
    assert(all[n] == m);
    assert(forall|i: int| 0 <= i < n ==> all[i] == marks[i]);
    if checkout_at(all, c) {
        let i = choose|i: int|
            0 <= i < all.len() && (#[trigger] all[i]).kind == MarkKind::Checkout && all[i].target
                == c && forall|j: int|
                i < j < all.len() ==> (#[trigger] all[j]).kind != MarkKind::Checkout;
        if i < n {
            assert(marks[i] == all[i]);
            assert forall|j: int| i < j < marks.len() implies (#[trigger] marks[j]).kind
                != MarkKind::Checkout by {
                assert(all[j] == marks[j]);
            }
            assert(all[n].kind != MarkKind::Checkout);
        }
    }
    if m.kind != MarkKind::Checkout && checkout_at(marks, c) {
        let i = choose|i: int|
            0 <= i < marks.len() && (#[trigger] marks[i]).kind == MarkKind::Checkout
                && marks[i].target == c && forall|j: int|
                i < j < marks.len() ==> (#[trigger] marks[j]).kind != MarkKind::Checkout;
        assert(all[i] == marks[i]);
        assert forall|j: int| i < j < all.len() implies (#[trigger] all[j]).kind
            != MarkKind::Checkout by {
            if j < n {
                assert(all[j] == marks[j]);
            }
        }
    }
}

proof fn lemma_tip_at(marks: Seq<MarkView>, m: MarkView, c: usize, name: Seq<char>)
    ensures
        tip_at(marks.push(m), c, name) == if names_ref(m) && m.name == name {
            m.target == c
        } else {
            tip_at(marks, c, name)
        },
{
    let all = marks.push(m);
    let n = marks.len() as int;
    assert(all[n] == m);
    assert(forall|i: int| 0 <= i < n ==> all[i] == marks[i]);
    if tip_at(all, c, name) {
        let i = choose|i: int|
            #[trigger] is_last(all, i) && all[i].target == c && all[i].name == name;
        if i < n {
            assert forall|j: int| i < j < marks.len() && names_ref(#[trigger] marks[j]) implies marks[j].name
                != marks[i].name by {
                assert(all[j] == marks[j]);
            }
            assert(is_last(marks, i));
            assert(!(names_ref(all[n]) && all[n].name == name));
        }
    }
    if names_ref(m) && m.name == name {
        assert(is_last(all, n));
    } else if tip_at(marks, c, name) {
        let i = choose|i: int|
            #[trigger] is_last(marks, i) && marks[i].target == c && marks[i].name == name;
        assert(all[i] == marks[i]);
        assert forall|j: int| i < j < all.len() && names_ref(#[trigger] all[j]) implies all[j].name
            != all[i].name by {
            if j < n {
                assert(all[j] == marks[j]);
            }
        }
        assert(is_last(all, i));
    }
}

// ---------------------------------------------------------------------------------------------
// Tips
// ---------------------------------------------------------------------------------------------

spec fn one_each(tips: Seq<(Seq<char>, usize)>) -> bool {
    forall|i: int, j: int|
        0 <= i < j < tips.len() ==> (#[trigger] tips[i]).0 != (#[trigger] tips[j]).0
}

proof fn lemma_with_tip(tips: Seq<(Seq<char>, usize)>, name: Seq<char>, c: usize)
    requires
        one_each(tips),
    ensures
        one_each(nodes::with_tip(tips, name, c)),
        forall|e: (Seq<char>, usize)| #[trigger]
            nodes::with_tip(tips, name, c).contains(e) <==> if e.0 == name {
                e.1 == c
            } else {
                tips.contains(e)
            },
    decreases tips.len(),
{
    let r = nodes::with_tip(tips, name, c);
    if tips.len() == 0 {
        assert(r =~= seq![(name, c)]);
        assert(r[0] == (name, c));
    } else {
        let rest = tips.drop_first();
        assert(forall|i: int| 0 <= i < rest.len() ==> rest[i] == tips[i + 1]);
        assert(one_each(rest)) by {
            assert forall|i: int, j: int| 0 <= i < j < rest.len() implies (#[trigger] rest[i]).0
                != (#[trigger] rest[j]).0 by {
                assert(tips[i + 1].0 != tips[j + 1].0);
            }
        }
        assert forall|e: (Seq<char>, usize)| #[trigger] tips.contains(e) <==> e == tips[0]
            || rest.contains(e) by {
            if tips.contains(e) {
                let i = choose|i: int| 0 <= i < tips.len() && tips[i] == e;
                if i > 0 {
                    assert(rest[i - 1] == e);
                }
            }
            if rest.contains(e) {
                let i = choose|i: int| 0 <= i < rest.len() && rest[i] == e;
                assert(tips[i + 1] == e);
            }
        }
        assert forall|e: (Seq<char>, usize)| rest.contains(e) implies (#[trigger] e.0) != tips[0].0 by {
            let i = choose|i: int| 0 <= i < rest.len() && rest[i] == e;
            assert(tips[0].0 != tips[i + 1].0);
        }
        let head = if tips[0].0 == name {
            (name, c)
        } else {
            tips[0]
        };
        let tail = if tips[0].0 == name {
            rest
        } else {
            nodes::with_tip(rest, name, c)
        };
        lemma_with_tip(rest, name, c);
        assert(r =~= seq![head] + tail);
        assert(r[0] == head);
        assert(forall|i: int| 0 < i < r.len() ==> r[i] == tail[i - 1]);
        assert forall|e: (Seq<char>, usize)| #[trigger] r.contains(e) <==> e == head || tail.contains(
            e,
        ) by {
            if r.contains(e) {
                let i = choose|i: int| 0 <= i < r.len() && r[i] == e;
                if i > 0 {
                    assert(tail[i - 1] == e);
                }
            }
            if tail.contains(e) {
                let i = choose|i: int| 0 <= i < tail.len() && tail[i] == e;
                assert(r[i + 1] == e);
            }
        }
        assert(one_each(r)) by {
            assert forall|i: int, j: int| 0 <= i < j < r.len() implies (#[trigger] r[i]).0 != (
            #[trigger] r[j]).0 by {
                assert(r[j] == tail[j - 1]);
                if i == 0 {
                    assert(tail.contains(tail[j - 1]));
                } else {
                    assert(r[i] == tail[i - 1]);
                }
            }
        }
    }
}

/// What the marks give besides the names: the stashes, the tips and the checkout.
proof fn lemma_collected(h: Seq<CommitRecord>, marks: Seq<MarkView>, c: usize)
    requires
        nodes::all_readable(h, nodes::targets(marks)),
        c < h.len() <= usize::MAX,
    ensures
        ({
            let g = nodes::with_marks(h, marks);
            &&& g.nodes.len() == h.len()
            &&& one_each(g.tips)
            &&& g.checkout == Some(c) <==> checkout_at(marks, c)
            &&& forall|name: Seq<char>|
                #[trigger] g.tips.contains((name, c)) <==> tip_at(marks, c, name)
            &&& match g.nodes[c as int] {
                Some(v) => {
                    &&& v.timestamp == h[c as int].timestamp
                    &&& v.short_id == if h[c as int].id@.len() > 7 {
                        h[c as int].id@.take(7)
                    } else {
                        h[c as int].id@
                    }
                    &&& v.is_stash == stash_at(marks, c)
                    &&& !v.is_tip
                    &&& !v.is_current_checkout
                    &&& v.branch_readme is None
                },
                None => !stash_at(marks, c),
            }
        }),
    decreases marks.len(),
{
    if marks.len() > 0 {
        let before = marks.drop_last();
        let m = marks.last();
        assert(before.push(m) =~= marks);
        assert forall|i: int| 0 <= i < nodes::targets(before).len() implies nodes::can_read(
            h,
            #[trigger] nodes::targets(before)[i],
        ) by {
            assert(nodes::targets(before)[i] == nodes::targets(marks)[i]);
        }
        assert(nodes::can_read(h, nodes::targets(marks)[marks.len() - 1]));
        lemma_collected(h, before, c);
        lemma_stash_at(before, m, c);
        lemma_checkout_at(before, m, c);
        let g = nodes::with_marks(h, before);
        lemma_with_tip(g.tips, m.name, m.target);
        let tips = nodes::with_marks(h, marks).tips;
        assert forall|name: Seq<char>| #[trigger] tips.contains((name, c)) <==> tip_at(
            marks,
            c,
            name,
        ) by {
            lemma_tip_at(before, m, c, name);
            assert(g.tips.contains((name, c)) <==> tip_at(before, c, name));
        }
    } else {
        let g = nodes::with_marks(h, marks);
        assert(g.tips =~= seq![]);
        assert forall|name: Seq<char>| !(#[trigger] tip_at(marks, c, name)) by {}
    }
}

proof fn lemma_tips_held(tips: Seq<(Seq<char>, usize)>, c: usize)
    ensures
        nodes::has_tip(tips, c) <==> exists|name: Seq<char>| #[trigger] tips.contains((name, c)),
        nodes::has_local_tip(tips, c) <==> exists|name: Seq<char>|
            #[trigger] tips.contains((name, c)) && crate::text::starts_with(name, "refs/heads/"@),
{
    if nodes::has_tip(tips, c) {
        let i = choose|i: int| 0 <= i < tips.len() && #[trigger] tips[i].1 == c;
        assert(tips[i] == (tips[i].0, c));
        assert(tips.contains((tips[i].0, c)));
    }
    if nodes::has_local_tip(tips, c) {
        let i = choose|i: int|
            0 <= i < tips.len() && #[trigger] tips[i].1 == c && crate::text::starts_with(
                tips[i].0,
                "refs/heads/"@,
            );
        assert(tips[i] == (tips[i].0, c));
        assert(tips.contains((tips[i].0, c)));
    }
    if exists|name: Seq<char>| #[trigger] tips.contains((name, c)) {
        let name = choose|name: Seq<char>| #[trigger] tips.contains((name, c));
        let i = choose|i: int| 0 <= i < tips.len() && tips[i] == (name, c);
        assert(tips[i].1 == c);
    }
    if exists|name: Seq<char>|
        #[trigger] tips.contains((name, c)) && crate::text::starts_with(name, "refs/heads/"@) {
        let name = choose|name: Seq<char>|
            #[trigger] tips.contains((name, c)) && crate::text::starts_with(name, "refs/heads/"@);
        let i = choose|i: int| 0 <= i < tips.len() && tips[i] == (name, c);
        assert(tips[i].1 == c);
    }
}

// ---------------------------------------------------------------------------------------------
// Nodes
// ---------------------------------------------------------------------------------------------

proof fn lemma_with_nodes_at(
    h: Seq<CommitRecord>,
    given: Seq<Option<NodeView>>,
    cs: Seq<usize>,
    c: usize,
)
    requires
        nodes::all_readable(h, cs),
        given.len() == h.len(),
        c < h.len(),
    ensures
        nodes::with_nodes(h, given, cs).len() == h.len(),
        nodes::with_nodes(h, given, cs)[c as int] == if given[c as int] is None && cs.contains(c) {
            Some(nodes::plain_node(h[c as int]))
        } else {
            given[c as int]
        },
    decreases cs.len(),
{
    if cs.len() > 0 {
        let before = cs.drop_last();
        assert forall|i: int| 0 <= i < before.len() implies nodes::can_read(
            h,
            #[trigger] before[i],
        ) by {
            assert(before[i] == cs[i]);
        }
        lemma_with_nodes_at(h, given, before, c);
        assert(nodes::can_read(h, cs[cs.len() - 1]));
        if before.contains(c) {
            let i = choose|i: int| 0 <= i < before.len() && before[i] == c;
            assert(cs[i] == c);
        }
        if cs.contains(c) && cs.last() != c {
            let i = choose|i: int| 0 <= i < cs.len() && cs[i] == c;
            assert(before[i] == c);
        }
    }
}

/// Whether the commit `c` is a root of the graph: the commit that the graph is limited to, or else,
/// without a limit on the number of commits, one without parents that the checked out commit
/// reaches.
pub open spec fn roots(g: GitGraphviz, c: usize) -> bool {
    let h = g.snapshot.history@;
    match g.ancestor {
        Some(root) => c == root,
        None => g.selection.limit == 0 && h[c as int].parents@.len() == 0 && history::reaches(
            history::parent_lists(h),
            g.snapshot.head->0 as int,
            c as int,
        ),
    }
}

/// Whether the commit `c` is shown for its own sake: a mark stands at it, it is a common ancestor
/// of tips, or it is a root. A graph that is limited to a commit shows what descends from it.
pub open spec fn shows(g: GitGraphviz, marks: Seq<MarkView>, bases: Seq<usize>, c: usize) -> bool {
    roots(g, c) || ((mark_at(marks, c) || (g.selection.limit == 0 && bases.contains(c))) && match g.ancestor {
        Some(root) => history::descends(
            history::parent_lists(g.snapshot.history@),
            c as int,
            root as int,
        ),
        None => true,
    })
}

proof fn lemma_marks(h: Seq<CommitRecord>, marks: Seq<MarkView>, c: usize)
    requires
        nodes::all_readable(h, nodes::targets(marks)),
        c < h.len() <= usize::MAX,
    ensures
        ({
            let n = nodes::with_marks(h, marks).nodes;
            &&& n.len() == h.len()
            &&& n[c as int] is Some <==> mark_at(marks, c)
            &&& n[c as int] matches Some(v) ==> v.id == h[c as int].id@ && v.message
                == h[c as int].message@ && names::ascending(v.refs) && names::ascending(v.tags)
            &&& match n[c as int] {
                Some(v) => forall|x: Seq<char>| #[trigger]
                    v.refs.contains(x) <==> ref_at(marks, c, x),
                None => forall|x: Seq<char>| !(#[trigger] ref_at(marks, c, x)),
            }
            &&& match n[c as int] {
                Some(v) => forall|x: Seq<char>| #[trigger]
                    v.tags.contains(x) <==> tag_at(marks, c, x),
                None => forall|x: Seq<char>| !(#[trigger] tag_at(marks, c, x)),
            }
        }),
{
    nodes::law_marks_make_the_nodes(h, marks, c as int);
    let n = nodes::with_marks(h, marks).nodes;
    let cs = nodes::targets(marks);
    assert(forall|i: int| 0 <= i < marks.len() ==> cs[i] == marks[i].target);
    if mark_at(marks, c) {
        let i = choose|i: int| 0 <= i < marks.len() && (#[trigger] marks[i]).target == c;
        assert(cs[i] == c);
    }
    if cs.contains(c) {
        let i = choose|i: int| 0 <= i < cs.len() && cs[i] == c;
        assert(marks[i].target == c);
    }
    assert forall|x: Seq<char>| #[trigger] ref_at(marks, c, x) == nodes::marked(
        marks,
        c as int,
        x,
        nodes::gives_ref(),
    ) by {
        if ref_at(marks, c, x) {
            let i = choose|i: int|
                0 <= i < marks.len() && names_ref(#[trigger] marks[i]) && marks[i].target == c
                    && marks[i].name == x;
            assert(nodes::gives_ref()(marks[i].kind));
        }
        if nodes::marked(marks, c as int, x, nodes::gives_ref()) {
            let i = choose|i: int|
                0 <= i < marks.len() && (#[trigger] marks[i]).target == c as int && marks[i].name
                    == x && nodes::gives_ref()(marks[i].kind);
            assert(names_ref(marks[i]));
        }
    }
    assert forall|x: Seq<char>| #[trigger] tag_at(marks, c, x) == nodes::marked(
        marks,
        c as int,
        x,
        nodes::gives_tag(),
    ) by {
        if tag_at(marks, c, x) {
            let i = choose|i: int|
                0 <= i < marks.len() && (#[trigger] marks[i]).kind == MarkKind::Tag
                    && marks[i].target == c && marks[i].name == x;
            assert(nodes::gives_tag()(marks[i].kind));
        }
        if nodes::marked(marks, c as int, x, nodes::gives_tag()) {
            let i = choose|i: int|
                0 <= i < marks.len() && (#[trigger] marks[i]).target == c as int && marks[i].name
                    == x && nodes::gives_tag()(marks[i].kind);
            assert(marks[i].kind == MarkKind::Tag);
        }
    }
    if n[c as int] is None {
        assert forall|x: Seq<char>| !(#[trigger] ref_at(marks, c, x)) by {
            if ref_at(marks, c, x) {
                let i = choose|i: int|
                    0 <= i < marks.len() && names_ref(#[trigger] marks[i]) && marks[i].target == c
                        && marks[i].name == x;
                assert(mark_at(marks, c));
            }
        }
        assert forall|x: Seq<char>| !(#[trigger] tag_at(marks, c, x)) by {
            if tag_at(marks, c, x) {
                let i = choose|i: int|
                    0 <= i < marks.len() && (#[trigger] marks[i]).kind == MarkKind::Tag
                        && marks[i].target == c && marks[i].name == x;
                assert(mark_at(marks, c));
            }
        }
    }
}

/// The node of a commit that is shown for its own sake, whether the graph is limited or not, tells
/// all that is known of the commit: its id and message, every ref and every tag that stands at it
/// and no others, `ROOT` if it is a root, whether it is a stash, whether a ref ends at it, and
/// whether it is checked out.
pub proof fn law_shown_commits_keep_their_names(
    g: GitGraphviz,
    marks: Seq<MarkView>,
    bases: Seq<usize>,
    readmes: Seq<Option<String>>,
    c: usize,
)
    requires
        g.snapshot.history@.len() <= usize::MAX,
        nodes::all_readable(g.snapshot.history@, nodes::targets(marks)),
        g.can_place(bases),
        c < g.snapshot.history@.len(),
        shows(g, marks, bases, c),
    ensures
        ({
            let r = g.snapshot.history@[c as int];
            g.condensed(
                nodes::with_marks(g.snapshot.history@, marks),
                bases,
                readmes,
            ).nodes[c as int] matches Some(v) && {
                &&& v.id == r.id@
                &&& v.short_id == if r.id@.len() > 7 {
                    r.id@.take(7)
                } else {
                    r.id@
                }
                &&& v.message == r.message@
                &&& v.timestamp == r.timestamp
                &&& names::ascending(v.refs)
                &&& names::ascending(v.tags)
                &&& forall|x: Seq<char>| #[trigger]
                    v.refs.contains(x) <==> ref_at(marks, c, x) || (x == "ROOT"@ && roots(g, c))
                &&& forall|x: Seq<char>| #[trigger] v.tags.contains(x) <==> tag_at(marks, c, x)
                &&& v.is_stash <==> stash_at(marks, c)
                &&& v.is_tip <==> exists|x: Seq<char>| #[trigger] tip_at(marks, c, x)
                &&& v.is_current_checkout <==> checkout_at(marks, c)
            }
        }),
{
    let h = g.snapshot.history@;
    let collected = nodes::with_marks(h, marks);
    lemma_marks(h, marks, c);
    lemma_collected(h, marks, c);
    lemma_tips_held(collected.tips, c);
    if exists|x: Seq<char>| #[trigger] tip_at(marks, c, x) {
        let x = choose|x: Seq<char>| #[trigger] tip_at(marks, c, x);
        assert(collected.tips.contains((x, c)));
    }
    if nodes::has_tip(collected.tips, c) {
        let x = choose|x: Seq<char>| #[trigger] collected.tips.contains((x, c));
        assert(tip_at(marks, c, x));
    }
    if g.selection.limit == 0 {
        lemma_with_nodes_at(h, collected.nodes, bases, c);
    }
    let based = g.based(collected, bases);
    let bare = nodes::plain_node(h[c as int]);
    assert(based[c as int] is Some <==> mark_at(marks, c) || (g.selection.limit == 0
        && bases.contains(c)));
    let v = match based[c as int] {
        Some(v) => v,
        None => bare,
    };
    names::lemma_with_name(v.refs, "ROOT"@);
    let placed = g.placed(collected, bases);
    assert(placed.nodes[c as int] == Some(
        if roots(g, c) {
            nodes::with_ref(v, "ROOT"@)
        } else {
            v
        },
    ));
    let done = nodes::finished(placed, readmes);
    assert(g.condensed(collected, bases, readmes).nodes[c as int] == done[c as int]);
}

/// A commit that is in the graph, but not for its own sake, has no name there.
pub proof fn law_other_commits_have_no_names(
    g: GitGraphviz,
    marks: Seq<MarkView>,
    bases: Seq<usize>,
    readmes: Seq<Option<String>>,
    c: usize,
)
    requires
        g.snapshot.history@.len() <= usize::MAX,
        nodes::all_readable(g.snapshot.history@, nodes::targets(marks)),
        g.can_place(bases),
        c < g.snapshot.history@.len(),
        !shows(g, marks, bases, c),
    ensures
        match g.condensed(
            nodes::with_marks(g.snapshot.history@, marks),
            bases,
            readmes,
        ).nodes[c as int] {
            Some(v) => {
                &&& v.id == g.snapshot.history@[c as int].id@
                &&& v.message == g.snapshot.history@[c as int].message@
                &&& v.timestamp == g.snapshot.history@[c as int].timestamp
                &&& v.refs.len() == 0
                &&& v.tags.len() == 0
                &&& v.branch_readme is None
                &&& !v.is_stash
                &&& !v.is_tip
                &&& !v.is_current_checkout
            },
            None => true,
        },
{
    let h = g.snapshot.history@;
    let collected = nodes::with_marks(h, marks);
    lemma_marks(h, marks, c);
    if g.selection.limit == 0 {
        lemma_with_nodes_at(h, collected.nodes, bases, c);
    }
    let placed = g.placed(collected, bases);
    assert(placed.nodes[c as int] is None);
    let done = nodes::finished(placed, readmes);
    assert(done[c as int] is None);
}

/// The file beside a commit describes it if a local branch ends there and it says anything.
pub proof fn law_local_branches_are_described(
    g: GitGraphviz,
    marks: Seq<MarkView>,
    bases: Seq<usize>,
    readmes: Seq<Option<String>>,
    c: usize,
)
    requires
        g.snapshot.history@.len() <= usize::MAX,
        nodes::all_readable(g.snapshot.history@, nodes::targets(marks)),
        g.can_place(bases),
        c < g.snapshot.history@.len(),
        readmes.len() == g.snapshot.history@.len(),
        shows(g, marks, bases, c),
    ensures
        g.condensed(
            nodes::with_marks(g.snapshot.history@, marks),
            bases,
            readmes,
        ).nodes[c as int] matches Some(v) && {
            let local = exists|x: Seq<char>| #[trigger]
                tip_at(marks, c, x) && "refs/heads/"@.is_prefix_of(x);
            match v.branch_readme {
                Some(text) => local && text.len() > 0 && (readmes[c as int] matches Some(content)
                    && text == nodes::branch_description(content@)),
                None => !local || readmes[c as int] is None || nodes::branch_description(
                    readmes[c as int]->0@,
                ).len() == 0,
            }
        },
{
    let h = g.snapshot.history@;
    let collected = nodes::with_marks(h, marks);
    law_shown_commits_keep_their_names(g, marks, bases, readmes, c);
    lemma_marks(h, marks, c);
    lemma_collected(h, marks, c);
    lemma_tips_held(collected.tips, c);
    if g.selection.limit == 0 {
        lemma_with_nodes_at(h, collected.nodes, bases, c);
    }
    let placed = g.placed(collected, bases);
    assert(placed.nodes[c as int]->0.branch_readme is None);
    let done = nodes::finished(placed, readmes);
    assert(g.condensed(collected, bases, readmes).nodes[c as int] == done[c as int]);
    assert forall|x: Seq<char>| crate::text::starts_with(x, "refs/heads/"@)
        == #[trigger] "refs/heads/"@.is_prefix_of(x) by {
        let p = "refs/heads/"@;
        if p.len() <= x.len() {
            assert(x.subrange(0, p.len() as int) =~= x.take(p.len() as int));
        }
    }
    if nodes::has_local_tip(collected.tips, c) {
        let x = choose|x: Seq<char>|
            #[trigger] collected.tips.contains((x, c)) && crate::text::starts_with(
                x,
                "refs/heads/"@,
            );
        assert("refs/heads/"@.is_prefix_of(x));
        assert(tip_at(marks, c, x));
    }
    if exists|x: Seq<char>| #[trigger] tip_at(marks, c, x) && "refs/heads/"@.is_prefix_of(x) {
        let x = choose|x: Seq<char>|
            #[trigger] tip_at(marks, c, x) && "refs/heads/"@.is_prefix_of(x);
        assert(collected.tips.contains((x, c)));
    }
}

// ---------------------------------------------------------------------------------------------
// Merges and edges
// ---------------------------------------------------------------------------------------------

/// The commits that a graph shows for their own sake.
pub open spec fn shown_commits(g: GitGraphviz, marks: Seq<MarkView>, bases: Seq<usize>) -> Seq<bool> {
    Seq::new(g.snapshot.history@.len(), |x: int| shows(g, marks, bases, x as usize))
}

/// The stashes among the commits that a graph shows for their own sake.
pub open spec fn shown_stashes(g: GitGraphviz, marks: Seq<MarkView>, bases: Seq<usize>) -> Seq<bool> {
    Seq::new(
        g.snapshot.history@.len(),
        |x: int| shows(g, marks, bases, x as usize) && stash_at(marks, x as usize),
    )
}

/// The graph of the given marks.
pub open spec fn graph_of(
    g: GitGraphviz,
    marks: Seq<MarkView>,
    bases: Seq<usize>,
    readmes: Seq<Option<String>>,
) -> CondensedView {
    g.condensed(nodes::with_marks(g.snapshot.history@, marks), bases, readmes)
}

spec fn own_nodes(
    g: GitGraphviz,
    marks: Seq<MarkView>,
    bases: Seq<usize>,
    readmes: Seq<Option<String>>,
) -> Seq<Option<NodeView>> {
    nodes::finished(
        g.placed(nodes::with_marks(g.snapshot.history@, marks), bases),
        readmes,
    )
}

proof fn lemma_own_nodes(
    g: GitGraphviz,
    marks: Seq<MarkView>,
    bases: Seq<usize>,
    readmes: Seq<Option<String>>,
)
    requires
        g.snapshot.history@.len() <= usize::MAX,
        nodes::all_readable(g.snapshot.history@, nodes::targets(marks)),
        g.can_place(bases),
    ensures
        ({
            let own = own_nodes(g, marks, bases, readmes);
            &&& own.len() == g.snapshot.history@.len()
            &&& Seq::new(own.len(), |x: int| own[x] is Some) == shown_commits(g, marks, bases)
            &&& Seq::new(own.len(), |x: int| own[x] matches Some(v) && v.is_stash)
                == shown_stashes(g, marks, bases)
        }),
{
    let h = g.snapshot.history@;
    let collected = nodes::with_marks(h, marks);
    let own = own_nodes(g, marks, bases, readmes);
    lemma_collected_len(h, marks);
    if g.selection.limit == 0 {
        lemma_with_nodes_count(h, collected.nodes, bases);
    }
    assert(own.len() == h.len());
    assert forall|x: int| 0 <= x < h.len() implies (own[x] is Some) == shows(
        g,
        marks,
        bases,
        x as usize,
    ) && (own[x] matches Some(v) ==> v.is_stash == stash_at(marks, x as usize)) by {
        let c = x as usize;
        assert(c as int == x);
        lemma_marks(h, marks, c);
        lemma_collected(h, marks, c);
        if g.selection.limit == 0 {
            lemma_with_nodes_at(h, collected.nodes, bases, c);
        }
        let based = g.based(collected, bases);
        assert(based[x] is Some <==> mark_at(marks, c) || (g.selection.limit == 0
            && bases.contains(c)));
        let placed = g.placed(collected, bases);
        assert(placed.nodes[x] is Some <==> shows(g, marks, bases, c));
    }
    assert(Seq::new(own.len(), |x: int| own[x] is Some) =~= shown_commits(g, marks, bases));
    assert(Seq::new(own.len(), |x: int| own[x] matches Some(v) && v.is_stash) =~= shown_stashes(
        g,
        marks,
        bases,
    ));
}

proof fn lemma_collected_len(h: Seq<CommitRecord>, marks: Seq<MarkView>)
    requires
        nodes::all_readable(h, nodes::targets(marks)),
    ensures
        nodes::with_marks(h, marks).nodes.len() == h.len(),
    decreases marks.len(),
{
    if marks.len() > 0 {
        let before = marks.drop_last();
        assert forall|i: int| 0 <= i < nodes::targets(before).len() implies nodes::can_read(
            h,
            #[trigger] nodes::targets(before)[i],
        ) by {
            assert(nodes::targets(before)[i] == nodes::targets(marks)[i]);
        }
        assert(nodes::can_read(h, nodes::targets(marks)[marks.len() - 1]));
        lemma_collected_len(h, before);
    }
}

proof fn lemma_with_nodes_count(
    h: Seq<CommitRecord>,
    given: Seq<Option<NodeView>>,
    cs: Seq<usize>,
)
    requires
        nodes::all_readable(h, cs),
        given.len() == h.len(),
    ensures
        nodes::with_nodes(h, given, cs).len() == given.len(),
    decreases cs.len(),
{
    if cs.len() > 0 {
        let before = cs.drop_last();
        assert forall|i: int| 0 <= i < before.len() implies nodes::can_read(
            h,
            #[trigger] before[i],
        ) by {
            assert(before[i] == cs[i]);
        }
        assert(nodes::can_read(h, cs[cs.len() - 1]));
        lemma_with_nodes_count(h, given, before);
    }
}

/// Every merge between commits that the graph shows for their own sake is in the graph: a nearby
/// path leads to it from one of them, through any of the parents (from a stash the first one
/// alone), with none of them in between, and nearby paths lead from two of its parents to one of
/// them.
pub proof fn law_graph_has_every_merge_in_between(
    g: GitGraphviz,
    marks: Seq<MarkView>,
    bases: Seq<usize>,
    readmes: Seq<Option<String>>,
    c: usize,
    from: Seq<usize>,
    i: int,
    first: Seq<usize>,
    j: int,
    second: Seq<usize>,
)
    requires
        g.snapshot.history@.len() <= usize::MAX,
        history::in_range(g.snapshot.history.parents()),
        nodes::all_readable(g.snapshot.history@, nodes::targets(marks)),
        g.can_place(bases),
        c < g.snapshot.history@.len(),
        walk_laws::leads_nearby(
            walk_laws::followed_lists(
                g.snapshot.history.parents(),
                shown_stashes(g, marks, bases),
            ),
            shown_commits(g, marks, bases),
            from,
            from[0],
            c,
        ),
        shown_commits(g, marks, bases)[from[0] as int],
        0 <= i < j < g.snapshot.history.parents()[c as int].len(),
        walk_laws::leads_nearby(
            g.snapshot.history.parents(),
            shown_commits(g, marks, bases),
            first,
            g.snapshot.history.parents()[c as int][i],
            first.last(),
        ),
        shown_commits(g, marks, bases)[first.last() as int],
        walk_laws::leads_nearby(
            g.snapshot.history.parents(),
            shown_commits(g, marks, bases),
            second,
            g.snapshot.history.parents()[c as int][j],
            second.last(),
        ),
        shown_commits(g, marks, bases)[second.last() as int],
    ensures
        graph_of(g, marks, bases, readmes).nodes[c as int] is Some,
{
    let h = g.snapshot.history@;
    let own = own_nodes(g, marks, bases, readmes);
    let shown = shown_commits(g, marks, bases);
    lemma_own_nodes(g, marks, bases, readmes);
    if !shown[c as int] {
        assert(from[0] < h.len());
        assert(first[first.len() - 1] < h.len());
        assert(second[second.len() - 1] < h.len());
        let as_shown = Seq::new(own.len(), |x: int| own[x] is Some);
        assert(as_shown[c as int] == shown[c as int]);
        assert(as_shown[from[0] as int] == shown[from[0] as int]);
        assert(as_shown[first.last() as int] == shown[first.last() as int]);
        assert(as_shown[second.last() as int] == shown[second.last() as int]);
        walk_laws::law_merges_in_between_are_kept(h, own, c, from, i, first, j, second);
    } else {
        law_shown_commits_keep_their_names(g, marks, bases, readmes, c);
    }
}

/// The edges of the graph: each parent of a commit of the graph (of a stash the first one alone)
/// that is in the graph itself is joined to it, and for each other parent from which a commit of
/// the graph can be reached, one is joined to it that is reached from there with no commit of the
/// graph in between.
pub proof fn law_graph_joins_every_parent(
    g: GitGraphviz,
    marks: Seq<MarkView>,
    bases: Seq<usize>,
    readmes: Seq<Option<String>>,
    c: int,
    k: int,
)
    requires
        g.snapshot.history@.len() <= usize::MAX,
        history::in_range(g.snapshot.history.parents()),
        nodes::all_readable(g.snapshot.history@, nodes::targets(marks)),
        g.can_place(bases),
        0 <= c < g.snapshot.history@.len(),
        graph_of(g, marks, bases, readmes).nodes[c] is Some,
        0 <= k < g.snapshot.history.parents()[c].len(),
        k == 0 || !shown_stashes(g, marks, bases)[c],
    ensures
        ({
            let ps = g.snapshot.history.parents();
            let d = graph_of(g, marks, bases, readmes);
            let kept = Seq::new(d.nodes.len(), |x: int| d.nodes[x] is Some);
            let q = ps[c][k];
            &&& kept[q as int] ==> d.parents[c].contains(q)
            &&& walk_laws::alive(ps, kept, q) ==> exists|path: Seq<usize>, p: usize|
                #[trigger] walk_laws::leads(ps, kept, path, q, p) && kept[p as int]
                    && d.parents[c].contains(p) && (k == 0 ==> d.parents[c][0] == p) && (
                kept[q as int] ==> p == q)
        }),
{
    let own = own_nodes(g, marks, bases, readmes);
    lemma_own_nodes(g, marks, bases, readmes);
    let stash = Seq::new(own.len(), |x: int| own[x] matches Some(v) && v.is_stash);
    assert(stash[c] == shown_stashes(g, marks, bases)[c]);
    walk_laws::law_every_parent_leads_on(g.snapshot.history@, own, c, k);
}

/// Every edge of the graph is a path in the history from the child to the parent, with no commit of
/// the graph in between. From a stash it goes through the first parent.
pub proof fn law_graph_edges_are_paths(
    g: GitGraphviz,
    marks: Seq<MarkView>,
    bases: Seq<usize>,
    readmes: Seq<Option<String>>,
    c: int,
    i: int,
)
    requires
        g.snapshot.history@.len() <= usize::MAX,
        history::in_range(g.snapshot.history.parents()),
        nodes::all_readable(g.snapshot.history@, nodes::targets(marks)),
        g.can_place(bases),
        0 <= c < g.snapshot.history@.len(),
        0 <= i < graph_of(g, marks, bases, readmes).parents[c].len(),
    ensures
        ({
            let ps = g.snapshot.history.parents();
            let d = graph_of(g, marks, bases, readmes);
            let kept = Seq::new(d.nodes.len(), |x: int| d.nodes[x] is Some);
            let p = d.parents[c][i];
            &&& kept[c] && p < ps.len() && kept[p as int]
            &&& exists|k: int, path: Seq<usize>|
                {
                    &&& 0 <= k < ps[c].len()
                    &&& (k == 0 || !shown_stashes(g, marks, bases)[c])
                    &&& #[trigger] walk_laws::leads(ps, kept, path, #[trigger] ps[c][k], p)
                    &&& (kept[ps[c][k] as int] ==> p == ps[c][k])
                }
        }),
{
    let own = own_nodes(g, marks, bases, readmes);
    lemma_own_nodes(g, marks, bases, readmes);
    let stash = Seq::new(own.len(), |x: int| own[x] matches Some(v) && v.is_stash);
    assert(stash[c] == shown_stashes(g, marks, bases)[c]);
    walk_laws::law_edges_are_paths(g.snapshot.history@, own, c, i);
}

// ---------------------------------------------------------------------------------------------
// Whether there is a graph
// ---------------------------------------------------------------------------------------------

/// There is a graph whenever every commit of the history can be read and everything that is given
/// by its place has one: what is checked out, the commit that the graph is limited to, and the
/// common ancestors of tips.
pub proof fn law_readable_history_makes_a_graph(g: GitGraphviz, bases: Seq<usize>)
    requires
        history::in_range(g.snapshot.history.parents()),
        forall|c: int|
            0 <= c < g.snapshot.history@.len() ==> (#[trigger] g.snapshot.history@[c]).readable,
        g.selection.limit > 0 || forall|i: int|
            0 <= i < bases.len() ==> (#[trigger] bases[i]) < g.snapshot.history@.len(),
        match g.ancestor {
            Some(root) => root < g.snapshot.history@.len(),
            None => g.selection.limit > 0 || (g.snapshot.head matches Some(head) && head
                < g.snapshot.history@.len()),
        },
    ensures
        g.can_place(bases),
{
    let h = g.snapshot.history@;
    let ps = history::parent_lists(h);
    if g.ancestor is None && g.selection.limit == 0 {
        let head = g.snapshot.head->0;
        assert forall|c: usize| #[trigger]
            history::reaches(ps, head as int, c as int) implies nodes::can_read(h, c) by {
            let steps = choose|steps: nat|
                #[trigger] history::reaches_in(ps, head as int, c as int, steps);
            lemma_reaches_within(ps, head as int, c as int, steps);
        }
    }
}

proof fn lemma_reaches_within(ps: Seq<Seq<usize>>, a: int, b: int, steps: nat)
    requires
        history::in_range(ps),
        0 <= a < ps.len(),
        history::reaches_in(ps, a, b, steps),
    ensures
        0 <= b < ps.len(),
    decreases steps,
{
    if steps > 0 {
        let k = choose|k: int|
            0 <= a < ps.len() && 0 <= k < ps[a].len() && history::reaches_in(
                ps,
                #[trigger] ps[a][k] as int,
                b,
                (steps - 1) as nat,
            );
        assert(ps[a][k] < ps.len());
        lemma_reaches_within(ps, ps[a][k] as int, b, (steps - 1) as nat);
    }
}

/// Where there is no graph, there is one reason: nothing is checked out, or a commit that cannot be
/// read, and never both. A commit that is named is a common ancestor of tips, the commit that the
/// graph is limited to, or one that the checked out commit reaches.
pub proof fn law_there_is_one_reason(
    g: GitGraphviz,
    bases: Seq<usize>,
    e: GraphError,
    other: GraphError,
)
    requires
        g.place_error(bases, e),
    ensures
        g.place_error(bases, other) ==> e == other,
        e is NoHead ==> g.snapshot.head is None,
        e matches GraphError::MissingCommit(c) ==> {
            &&& !(c < g.snapshot.history@.len() && g.snapshot.history@[c as int].readable)
            &&& bases.contains(c) || g.ancestor == Some(c) || (g.snapshot.head matches Some(head)
                && history::reaches(
                g.snapshot.history.parents(),
                head as int,
                c as int,
            ))
        },
{
    let h = g.snapshot.history@;
    match (e, other) {
        (GraphError::MissingCommit(c), GraphError::MissingCommit(d)) => {
            if g.place_error(bases, other) {
                if !g.bases_readable(bases) {
                    let i = choose|i: int|
                        0 <= i < bases.len() && #[trigger] bases[i] == c && !nodes::can_read(h, c)
                            && nodes::all_readable(h, bases.take(i));
                    let j = choose|j: int|
                        0 <= j < bases.len() && #[trigger] bases[j] == d && !nodes::can_read(h, d)
                            && nodes::all_readable(h, bases.take(j));
                    if i < j {
                        assert(bases.take(j)[i] == c);
                        assert(nodes::can_read(h, bases.take(j)[i]));
                    } else if j < i {
                        assert(bases.take(i)[j] == d);
                        assert(nodes::can_read(h, bases.take(i)[j]));
                    }
                } else if g.ancestor is None {
                    if c < d {
                        assert(nodes::can_read(h, c));
                    } else if d < c {
                        assert(nodes::can_read(h, d));
                    }
                }
            }
        },
        _ => {},
    }
    match e {
        GraphError::MissingCommit(c) => {
            if !g.bases_readable(bases) {
                let i = choose|i: int|
                    0 <= i < bases.len() && #[trigger] bases[i] == c && !nodes::can_read(h, c)
                        && nodes::all_readable(h, bases.take(i));
                assert(bases[i] == c);
            }
        },
        _ => {},
    }
}

// ---------------------------------------------------------------------------------------------
// The forge
// ---------------------------------------------------------------------------------------------

/// The address that is found is that of a remote: the first one called `origin` that has an address,
/// or, where none such has one, the first remote that has. None is found only where no remote has
/// one.
pub proof fn law_origin_gives_the_address(remotes: Seq<graph::RemoteRecord>)
    ensures
        match graph::detected_address(remotes) {
            Some(url) => exists|i: int|
                {
                    &&& 0 <= i < remotes.len()
                    &&& graph::remote_address(#[trigger] remotes[i]) == Some(url)
                    &&& forall|j: int|
                        0 <= j < remotes.len() && remotes[j].name@ == "origin"@
                            && graph::remote_address(#[trigger] remotes[j]) is Some
                            ==> remotes[i].name@ == "origin"@ && i <= j
                    &&& forall|j: int|
                        0 <= j < i && graph::remote_address(#[trigger] remotes[j]) is Some
                            ==> remotes[i].name@ == "origin"@ && remotes[j].name@ != "origin"@
                },
            None => forall|i: int|
                0 <= i < remotes.len() ==> graph::remote_address(#[trigger] remotes[i]) is None,
        },
{
    lemma_first_address(remotes, true);
    lemma_first_address(remotes, false);
    match graph::first_address(remotes, true) {
        Some(url) => {
            let i = choose|i: int| #[trigger] is_first(remotes, true, i, url);
            assert(graph::remote_address(remotes[i]) == Some(url));
        },
        None => {
            match graph::first_address(remotes, false) {
                Some(url) => {
                    let i = choose|i: int| #[trigger] is_first(remotes, false, i, url);
                    assert(graph::remote_address(remotes[i]) == Some(url));
                },
                None => {},
            }
        },
    }
}

spec fn is_first(remotes: Seq<graph::RemoteRecord>, origin: bool, i: int, url: Seq<char>) -> bool {
    &&& 0 <= i < remotes.len()
    &&& (remotes[i].name@ == "origin"@) == origin
    &&& graph::remote_address(remotes[i]) == Some(url)
    &&& forall|j: int|
        0 <= j < i && (remotes[j].name@ == "origin"@) == origin ==> graph::remote_address(
            #[trigger] remotes[j],
        ) is None
}

proof fn lemma_first_address(remotes: Seq<graph::RemoteRecord>, origin: bool)
    ensures
        match graph::first_address(remotes, origin) {
            Some(url) => exists|i: int| #[trigger] is_first(remotes, origin, i, url),
            None => forall|j: int|
                0 <= j < remotes.len() && (remotes[j].name@ == "origin"@) == origin
                    ==> graph::remote_address(#[trigger] remotes[j]) is None,
        },
    decreases remotes.len(),
{
    if remotes.len() > 0 {
        let rest = remotes.drop_first();
        assert(forall|j: int| 0 <= j < rest.len() ==> rest[j] == remotes[j + 1]);
        lemma_first_address(rest, origin);
        if graph::remote_address(remotes[0]) is Some && (remotes[0].name@ == "origin"@) == origin {
            assert(is_first(remotes, origin, 0, graph::remote_address(remotes[0])->0));
        } else {
            match graph::first_address(rest, origin) {
                Some(url) => {
                    let i = choose|i: int| #[trigger] is_first(rest, origin, i, url);
                    assert forall|j: int|
                        0 <= j < i + 1 && (remotes[j].name@ == "origin"@)
                            == origin implies graph::remote_address(#[trigger] remotes[j]) is None by {
                        if j > 0 {
                            assert(rest[j - 1] == remotes[j]);
                        }
                    }
                    assert(remotes[i + 1] == rest[i]);
                    assert(is_first(remotes, origin, i + 1, url));
                },
                None => {
                    assert forall|j: int|
                        0 <= j < remotes.len() && (remotes[j].name@ == "origin"@)
                            == origin implies graph::remote_address(#[trigger] remotes[j]) is None by {
                        if j > 0 {
                            assert(rest[j - 1] == remotes[j]);
                        }
                    }
                },
            }
        }
    }
}

proof fn lemma_suffix_off(name: Seq<char>, suffix: Seq<char>)
    requires
        suffix.len() > 0,
        !text::ends_with(name, suffix),
    ensures
        text::trim_end_matches(name, suffix) == name,
        text::trim_end_matches(name + suffix, suffix) == name,
{
    let whole = name + suffix;
    assert(whole.skip(whole.len() - suffix.len()) =~= suffix);
    assert(whole.take(whole.len() - suffix.len()) =~= name);
    assert(text::trim_end_matches(name, suffix) == name);
    assert(text::trim_end_matches(whole, suffix) == text::trim_end_matches(name, suffix));
}

/// A remote at `git@host:path`, with or without `.git` at the end, has its page at `host/path`.
pub proof fn law_remote_is_a_page(host: Seq<char>, path: Seq<char>)
    requires
        !host.contains(':'),
        !text::ends_with(path, ".git"@),
    ensures
        ({
            let ssh = "git@"@ + (host + ":"@ + path);
            let page = "https://"@ + host + "/"@ + path;
            &&& graph::web_address(ssh) == Some(page)
            &&& graph::web_address("git@"@ + (host + ":"@ + (path + ".git"@))) == Some(page)
        }),
{
    reveal_strlit("git@");
    reveal_strlit(":");
    reveal_strlit(".git");
    assert("git@"@.len() == 4);
    assert(".git"@.len() == 4);
    assert(":"@ =~= seq![':']);
    lemma_suffix_off(path, ".git"@);
    lemma_host(host, path);
    lemma_host(host, path + ".git"@);
}

proof fn lemma_host(host: Seq<char>, path: Seq<char>)
    requires
        !host.contains(':'),
    ensures
        graph::web_address("git@"@ + (host + ":"@ + path)) == Some(
            "https://"@ + host + "/"@ + text::trim_end_matches(path, ".git"@),
        ),
{
    reveal_strlit("git@");
    reveal_strlit(":");
    assert("git@"@.len() == 4);
    assert(":"@ =~= seq![':']);
    let rest = host + ":"@ + path;
    let url = "git@"@ + rest;
    assert(url.take(4) =~= "git@"@);
    assert(url.skip(4) =~= rest);
    let n = host.len() as int;
    let p = seq![':'];
    search::lemma_find_from(rest, p, 0);
    assert(rest.subrange(n, n + 1) =~= p);
    assert(text::occurs_at(rest, p, n));
    assert forall|j: int| 0 <= j < n implies !text::occurs_at(rest, p, j) by {
        if text::occurs_at(rest, p, j) {
            assert(rest.subrange(j, j + 1)[0] == ':');
            assert(host[j] == ':');
        }
    }
    assert(rest.take(n) =~= host);
    assert(rest.skip(n + 1) =~= path);
}

/// A web address is kept as it is, but for `.git` at its end.
pub proof fn law_web_address_is_kept(url: Seq<char>)
    requires
        text::starts_with(url, "https://"@) || text::starts_with(url, "http://"@),
        !text::ends_with(url, ".git"@),
    ensures
        graph::web_address(url) == Some(url),
        graph::web_address(url + ".git"@) == Some(url),
{
    reveal_strlit("git@");
    reveal_strlit("https://");
    reveal_strlit("http://");
    reveal_strlit(".git");
    assert("git@"@.len() == 4 && "git@"@[0] == 'g');
    assert("https://"@.len() == 8 && "https://"@[0] == 'h');
    assert("http://"@.len() == 7 && "http://"@[0] == 'h');
    assert(".git"@.len() == 4);
    lemma_suffix_off(url, ".git"@);
    let more = url + ".git"@;
    if text::starts_with(url, "https://"@) {
        assert(url.take(8)[0] == 'h');
        assert(more.take(8) =~= url.take(8));
    } else {
        assert(url.take(7)[0] == 'h');
        assert(more.take(7) =~= url.take(7));
    }
    assert(url[0] == 'h' && more[0] == 'h');
    if text::starts_with(url, "git@"@) {
        assert(url.take(4)[0] == 'g');
    }
    if text::starts_with(more, "git@"@) {
        assert(more.take(4)[0] == 'g');
    }
}

} // verus!
