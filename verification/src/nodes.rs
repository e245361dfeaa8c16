//! The commits that a graph shows, each with the names that point at it.

use vstd::prelude::*;

use crate::commit_node;
use crate::commit_node::{CommitNode, NodeView};
use crate::history;
use crate::history::{CommitRecord, History};
use crate::lines;
use crate::lines::{split_lines, trimmed};
use crate::names;
use crate::search;
use crate::search::joined;
use crate::snapshot;
use crate::snapshot::{Mark, MarkKind, MarkView};
use crate::text;
use crate::text::{begins_with, same_text};

verus! {

/// Why a graph cannot be made.
#[derive(Clone, Copy, Debug, PartialEq, Eq, Structural)]
pub enum GraphError {
    /// A commit that the graph needs cannot be read: its place in the history.
    MissingCommit(usize),
    /// There is no checked out commit to look for roots from.
    NoHead,
}

/// What a collection of nodes holds: for each commit its node, if the graph shows it; the tips of
/// the refs; and the commit that is checked out.
#[verifier::ext_equal]
pub struct CollectedView {
    pub nodes: Seq<Option<NodeView>>,
    pub tips: Seq<(Seq<char>, usize)>,
    pub checkout: Option<usize>,
}

/// The commits that a graph shows, each with the names that point at it.
#[derive(Debug)]
pub struct Collected {
    pub nodes: Vec<Option<CommitNode>>,
    pub tips: Vec<(String, usize)>,
    pub checkout: Option<usize>,
}

/// What a node holds, if there is one.
pub open spec fn opt_node_view(n: Option<CommitNode>) -> Option<NodeView> {
    match n {
        Some(n) => Some(n@),
        None => None,
    }
}

/// What nodes hold.
pub open spec fn node_views(v: Seq<Option<CommitNode>>) -> Seq<Option<NodeView>> {
    Seq::new(v.len(), |i: int| opt_node_view(v[i]))
}

/// What tips hold.
pub open spec fn tip_views(v: Seq<(String, usize)>) -> Seq<(Seq<char>, usize)> {
    Seq::new(v.len(), |i: int| (v[i].0@, v[i].1))
}

impl View for Collected {
    type V = CollectedView;

    open spec fn view(&self) -> CollectedView {
        CollectedView {
            nodes: node_views(self.nodes@),
            tips: tip_views(self.tips@),
            checkout: self.checkout,
        }
    }
}

/// Whether the commit at place `c` can be read.
pub open spec fn can_read(h: Seq<CommitRecord>, c: usize) -> bool {
    c < h.len() && h[c as int].readable
}

/// The node of a commit that nothing points at.
pub open spec fn plain_node(r: CommitRecord) -> NodeView {
    commit_node::bare_node(r.id@, r.message@, r.timestamp)
}

/// The nodes with one for `c`.
pub open spec fn with_node(
    h: Seq<CommitRecord>,
    nodes: Seq<Option<NodeView>>,
    c: usize,
) -> Seq<Option<NodeView>> {
    match nodes[c as int] {
        Some(v) => nodes,
        None => nodes.update(c as int, Some(plain_node(h[c as int]))),
    }
}

/// The tips with the tip of `name` at `c`, in place of an earlier one.
pub open spec fn with_tip(tips: Seq<(Seq<char>, usize)>, name: Seq<char>, c: usize) -> Seq<
    (Seq<char>, usize),
>
    decreases tips.len(),
{
    if tips.len() == 0 {
        seq![(name, c)]
    } else if tips[0].0 == name {
        seq![(name, c)] + tips.drop_first()
    } else {
        seq![tips[0]] + with_tip(tips.drop_first(), name, c)
    }
}

/// A node with one more ref.
pub open spec fn with_ref(v: NodeView, name: Seq<char>) -> NodeView {
    NodeView { refs: names::with_name(v.refs, name), ..v }
}

/// A node with one more tag.
pub open spec fn with_tag(v: NodeView, name: Seq<char>) -> NodeView {
    NodeView { tags: names::with_name(v.tags, name), ..v }
}

/// A node after a mark has been put at it.
pub open spec fn marked_node(v: NodeView, m: MarkView) -> NodeView {
    match m.kind {
        MarkKind::Ref => with_ref(v, m.name),
        MarkKind::Stash => NodeView { is_stash: true, ..with_ref(v, m.name) },
        MarkKind::Tag => with_tag(v, m.name),
        MarkKind::Checkout => v,
    }
}

/// The collection after a mark has been put in.
pub open spec fn with_mark(h: Seq<CommitRecord>, g: CollectedView, m: MarkView) -> CollectedView {
    let nodes = with_node(h, g.nodes, m.target);
    let v = nodes[m.target as int]->0;
    CollectedView {
        nodes: nodes.update(m.target as int, Some(marked_node(v, m))),
        tips: match m.kind {
            MarkKind::Ref | MarkKind::Stash => with_tip(g.tips, m.name, m.target),
            _ => g.tips,
        },
        checkout: if m.kind == MarkKind::Checkout {
            Some(m.target)
        } else {
            g.checkout
        },
    }
}

/// A collection with nothing in it, for a history of `n` commits.
pub open spec fn empty_collection(n: nat) -> CollectedView {
    CollectedView { nodes: Seq::new(n, |i: int| None), tips: seq![], checkout: None }
}

/// The collection that the marks give.
pub open spec fn with_marks(h: Seq<CommitRecord>, marks: Seq<MarkView>) -> CollectedView
    decreases marks.len(),
{
    if marks.len() == 0 {
        empty_collection(h.len())
    } else {
        with_mark(h, with_marks(h, marks.drop_last()), marks.last())
    }
}

/// The commits that marks stand at.
pub open spec fn targets(marks: Seq<MarkView>) -> Seq<usize> {
    Seq::new(marks.len(), |i: int| marks[i].target)
}

/// Every one of the given commits can be read.
pub open spec fn all_readable(h: Seq<CommitRecord>, cs: Seq<usize>) -> bool {
    forall|i: int| 0 <= i < cs.len() ==> can_read(h, #[trigger] cs[i])
}

/// `c` is the first of the given commits that cannot be read.
pub open spec fn first_missing(h: Seq<CommitRecord>, cs: Seq<usize>, c: usize) -> bool {
    exists|i: int|
        0 <= i < cs.len() && #[trigger] cs[i] == c && !can_read(h, c) && all_readable(h, cs.take(i))
}

/// The nodes with one for each of the given commits.
pub open spec fn with_nodes(
    h: Seq<CommitRecord>,
    nodes: Seq<Option<NodeView>>,
    cs: Seq<usize>,
) -> Seq<Option<NodeView>>
    decreases cs.len(),
{
    if cs.len() == 0 {
        nodes
    } else {
        with_node(h, with_nodes(h, nodes, cs.drop_last()), cs.last())
    }
}

/// The commits at the tips.
pub open spec fn tip_targets(tips: Seq<(Seq<char>, usize)>) -> Seq<usize> {
    Seq::new(tips.len(), |i: int| tips[i].1)
}

/// The given commits, each once, where it stands first.
pub open spec fn distinct(cs: Seq<usize>) -> Seq<usize>
    decreases cs.len(),
{
    if cs.len() == 0 {
        seq![]
    } else {
        let before = distinct(cs.drop_last());
        if before.contains(cs.last()) {
            before
        } else {
            before.push(cs.last())
        }
    }
}

/// Each of the given commits, paired with `c`.
pub open spec fn ends_with(cs: Seq<usize>, c: usize) -> Seq<(usize, usize)> {
    Seq::new(cs.len(), |i: int| (cs[i], c))
}

/// Every pair of the given commits.
pub open spec fn pairs(cs: Seq<usize>) -> Seq<(usize, usize)>
    decreases cs.len(),
{
    if cs.len() == 0 {
        seq![]
    } else {
        pairs(cs.drop_last()) + ends_with(cs.drop_last(), cs.last())
    }
}

/// The node of `root`, named ROOT, and those nodes that descend from it.
pub open spec fn descendants_of(
    h: Seq<CommitRecord>,
    nodes: Seq<Option<NodeView>>,
    root: usize,
) -> Seq<Option<NodeView>> {
    let more = with_node(h, nodes, root);
    let named = more.update(root as int, Some(with_ref(more[root as int]->0, "ROOT"@)));
    Seq::new(
        nodes.len(),
        |c: int|
            if c == root || history::descends(history::parent_lists(h), c, root as int) {
                named[c]
            } else {
                None
            },
    )
}

/// Whether `c` is a root of the current branch: a commit without parents that `head` reaches.
pub open spec fn is_root(h: Seq<CommitRecord>, head: usize, c: int) -> bool {
    history::reaches(history::parent_lists(h), head as int, c) && h[c].parents@.len() == 0
}

/// The nodes with one for each root of the current branch, named ROOT.
pub open spec fn with_roots(
    h: Seq<CommitRecord>,
    nodes: Seq<Option<NodeView>>,
    head: usize,
) -> Seq<Option<NodeView>> {
    Seq::new(
        nodes.len(),
        |c: int|
            if is_root(h, head, c) {
                Some(
                    with_ref(
                        match nodes[c] {
                            Some(v) => v,
                            None => plain_node(h[c]),
                        },
                        "ROOT"@,
                    ),
                )
            } else {
                nodes[c]
            },
    )
}

/// Whether some ref has its tip at `c`.
pub open spec fn has_tip(tips: Seq<(Seq<char>, usize)>, c: usize) -> bool {
    exists|i: int| 0 <= i < tips.len() && #[trigger] tips[i].1 == c
}

/// Whether some local branch has its tip at `c`.
pub open spec fn has_local_tip(tips: Seq<(Seq<char>, usize)>, c: usize) -> bool {
    exists|i: int|
        0 <= i < tips.len() && #[trigger] tips[i].1 == c && text::starts_with(
            tips[i].0,
            "refs/heads/"@,
        )
}

/// The description of a branch: the first ten lines of its file, without the blanks round them.
pub open spec fn branch_description(content: Seq<char>) -> Seq<char> {
    lines::trim(search::join(lines::first_lines(lines::lines(content), 10), "\n"@))
}

/// The description that a commit is shown with, if it has one.
pub open spec fn description_at(
    tips: Seq<(Seq<char>, usize)>,
    readmes: Seq<Option<String>>,
    c: int,
) -> Option<Seq<char>> {
    if 0 <= c < readmes.len() && has_local_tip(tips, c as usize) {
        match readmes[c] {
            Some(content) => if branch_description(content@).len() > 0 {
                Some(branch_description(content@))
            } else {
                None
            },
            None => None,
        }
    } else {
        None
    }
}

/// The nodes, each told whether it is a tip, whether it is checked out, and its description.
pub open spec fn finished(g: CollectedView, readmes: Seq<Option<String>>) -> Seq<
    Option<NodeView>,
> {
    Seq::new(
        g.nodes.len(),
        |c: int|
            match g.nodes[c] {
                Some(v) => Some(
                    NodeView {
                        branch_readme: match description_at(g.tips, readmes, c) {
                            Some(text) => Some(text),
                            None => v.branch_readme,
                        },
                        is_tip: v.is_tip || has_tip(g.tips, c as usize),
                        is_current_checkout: v.is_current_checkout || g.checkout == Some(
                            c as usize,
                        ),
                        ..v
                    },
                ),
                None => None,
            },
    )
}

/// Whether the commit at place `c` can be read.
fn is_readable(h: &History, c: usize) -> (r: bool)
    ensures
        r == can_read(h@, c),
{
    c < h.len() && h.get(c).readable
}

/// The collection that the marks give. Every commit that they stand at has to be readable.
pub fn collect(h: &History, marks: Vec<Mark>) -> (r: Result<Collected, GraphError>)
    ensures
        match r {
            Ok(g) => all_readable(h@, targets(snapshot::mark_views(marks@))) && g@ == with_marks(
                h@,
                snapshot::mark_views(marks@),
            ) && g@.nodes.len() == h@.len(),
            Err(e) => e matches GraphError::MissingCommit(c) && first_missing(
                h@,
                targets(snapshot::mark_views(marks@)),
                c,
            ),
        },
{
    let ghost ms = snapshot::mark_views(marks@);
    let ghost cs = targets(ms);
    let mut g = Collected::empty(h.len());
    let mut i: usize = 0;
    assert(ms.take(0) =~= seq![]);
    while i < marks.len()
        invariant
            i <= marks@.len(),
            ms == snapshot::mark_views(marks@),
            cs == targets(ms),
            g@.nodes.len() == h@.len(),
            g@ == with_marks(h@, ms.take(i as int)),
            all_readable(h@, cs.take(i as int)),
        decreases marks@.len() - i,
    {
        let target = marks[i].target;
        assert(cs[i as int] == target);
        if !is_readable(h, target) {
            return Err(GraphError::MissingCommit(target));
        }
        let m = Mark { kind: marks[i].kind, name: marks[i].name.clone(), target };
        assert(m@ =~= ms[i as int]);
        assert(ms.take(i + 1).drop_last() =~= ms.take(i as int));
        assert(ms.take(i + 1).last() == ms[i as int]);
        assert forall|k: int| 0 <= k < cs.take(i + 1).len() implies can_read(
            h@,
            #[trigger] cs.take(i + 1)[k],
        ) by {
            if k < i {
                assert(cs.take(i as int)[k] == cs[k]);
            }
        }
        g.add_mark(h, m);
        i = i + 1;
    }
    assert(ms.take(i as int) =~= ms);
    assert(cs.take(i as int) =~= cs);
    Ok(g)
}

impl Collected {
    /// A collection with nothing in it.
    fn empty(n: usize) -> (r: Collected)
        ensures
            r@ == empty_collection(n as nat),
    {
        let mut nodes: Vec<Option<CommitNode>> = Vec::new();
        let mut i: usize = 0;
        while i < n
            invariant
                i <= n,
                nodes@.len() == i,
                forall|j: int| 0 <= j < i ==> #[trigger] nodes@[j] is None,
            decreases n - i,
        {
            nodes.push(None);
            i = i + 1;
        }
        let r = Collected { nodes, tips: Vec::new(), checkout: None };
        assert(r@ =~= empty_collection(n as nat));
        r
    }

    /// Puts a node in for the commit `c`, unless there is one.
    pub fn add_ref_commit(&mut self, h: &History, c: usize)
        requires
            old(self)@.nodes.len() == h@.len(),
            can_read(h@, c),
        ensures
            final(self)@ == (CollectedView {
                nodes: with_node(h@, old(self)@.nodes, c),
                ..old(self)@
            }),
    {
        let ghost before = self@;
        if self.nodes[c].is_none() {
            let record = h.get(c);
            let node = CommitNode::new(
                record.id.as_str(),
                record.message.as_str(),
                record.timestamp,
            );
            assert(node@ == plain_node(h@[c as int]));
            self.nodes.set(c, Some(node));
        }
        assert(self@ =~= (CollectedView { nodes: with_node(h@, before.nodes, c), ..before }));
    }

    /// Notes the tip of a ref.
    fn set_tip_of(&mut self, name: String, c: usize)
        ensures
            final(self)@ == (CollectedView {
                tips: with_tip(old(self)@.tips, name@, c),
                ..old(self)@
            }),
    {
        let ghost tips = self@.tips;
        let n = self.tips.len();
        let mut i: usize = 0;
        assert(tips.skip(0) =~= tips);
        assert(tips.take(0) + with_tip(tips, name@, c) =~= with_tip(tips, name@, c));
        while i < n
            invariant
                i <= n,
                n == self.tips@.len(),
                *self == *old(self),
                tips == self@.tips,
                with_tip(tips, name@, c) == tips.take(i as int) + with_tip(
                    tips.skip(i as int),
                    name@,
                    c,
                ),
            decreases n - i,
        {
            let ghost rest = tips.skip(i as int);
            assert(rest.drop_first() =~= tips.skip(i + 1));
            assert(rest[0] == tips[i as int]);
            if same_text(self.tips[i].0.as_str(), name.as_str()) {
                self.tips.set(i, (name, c));
                assert(self@.tips =~= tips.take(i as int) + (seq![(name@, c)] + tips.skip(i + 1)));
                return ;
            }
            assert(tips.take(i as int) + (seq![rest[0]] + with_tip(tips.skip(i + 1), name@, c))
                =~= tips.take(i + 1) + with_tip(tips.skip(i + 1), name@, c));
            i = i + 1;
        }
        self.tips.push((name, c));
        assert(self@.tips =~= tips.take(i as int) + seq![(name@, c)]);
    }

    /// Puts a mark in.
    fn add_mark(&mut self, h: &History, m: Mark)
        requires
            old(self)@.nodes.len() == h@.len(),
            can_read(h@, m.target),
        ensures
            final(self)@ == with_mark(h@, old(self)@, m@),
    {
        let ghost before = self@;
        let c = m.target;
        self.add_ref_commit(h, c);
        let ghost nodes = self@.nodes;
        let ghost v = nodes[c as int]->0;
        assert(nodes.len() == self.nodes@.len());
        match m.kind {
            MarkKind::Ref => {
                self.name_node(c, m.name.clone());
                self.set_tip_of(m.name, c);
            },
            MarkKind::Stash => {
                self.name_node(c, m.name.clone());
                let ghost named = self@.nodes;
                assert(named.len() == self.nodes@.len());
                assert(named[c as int] == opt_node_view(self.nodes@[c as int]));
                assert(named[c as int] == Some(with_ref(v, m.name@)));
                match &mut self.nodes[c] {
                    Some(node) => {
                        node.set_stash();
                    },
                    None => {},
                }
                assert(self@.nodes =~= named.update(c as int, Some(marked_node(v, m@))));
                self.set_tip_of(m.name, c);
            },
            MarkKind::Tag => {
                match &mut self.nodes[c] {
                    Some(node) => {
                        node.add_tag(m.name);
                    },
                    None => {},
                }
            },
            MarkKind::Checkout => {
                self.checkout = Some(c);
            },
        }
        assert(self@.nodes =~= nodes.update(c as int, Some(marked_node(v, m@))));
        assert(self@ =~= with_mark(h@, before, m@));
    }

    /// Gives the node of `c` a ref.
    fn name_node(&mut self, c: usize, name: String)
        requires
            c < old(self)@.nodes.len(),
            old(self)@.nodes[c as int] is Some,
        ensures
            final(self)@ == (CollectedView {
                nodes: old(self)@.nodes.update(
                    c as int,
                    Some(with_ref(old(self)@.nodes[c as int]->0, name@)),
                ),
                ..old(self)@
            }),
    {
        let ghost before = self@;
        match &mut self.nodes[c] {
            Some(node) => {
                node.add_ref(name);
            },
            None => {},
        }
        assert(self@ =~= (CollectedView {
            nodes: before.nodes.update(c as int, Some(with_ref(before.nodes[c as int]->0, name@))),
            ..before
        }));
    }

    /// Puts a node in for each of the given commits.
    pub fn add_merge_base_commits(self, h: &History, bases: &Vec<usize>) -> (r: Result<
        Collected,
        GraphError,
    >)
        requires
            self@.nodes.len() == h@.len(),
        ensures
            match r {
                Ok(g) => all_readable(h@, bases@) && g@ == (CollectedView {
                    nodes: with_nodes(h@, self@.nodes, bases@),
                    ..self@
                }),
                Err(e) => e matches GraphError::MissingCommit(c) && first_missing(h@, bases@, c),
            },
    {
        let ghost start = self@;
        let mut g = self;
        let mut i: usize = 0;
        assert(bases@.take(0) =~= seq![]);
        while i < bases.len()
            invariant
                i <= bases@.len(),
                start.nodes.len() == h@.len(),
                g@.nodes.len() == h@.len(),
                g@ == (CollectedView {
                    nodes: with_nodes(h@, start.nodes, bases@.take(i as int)),
                    ..start
                }),
                all_readable(h@, bases@.take(i as int)),
            decreases bases@.len() - i,
        {
            let c = bases[i];
            if !is_readable(h, c) {
                assert(bases@[i as int] == c);
                return Err(GraphError::MissingCommit(c));
            }
            assert(bases@.take(i + 1).drop_last() =~= bases@.take(i as int));
            assert forall|k: int| 0 <= k < bases@.take(i + 1).len() implies can_read(
                h@,
                #[trigger] bases@.take(i + 1)[k],
            ) by {
                if k < i {
                    assert(bases@.take(i as int)[k] == bases@[k]);
                }
            }
            g.add_ref_commit(h, c);
            i = i + 1;
        }
        assert(bases@.take(i as int) =~= bases@);
        Ok(g)
    }

    /// The pairs of different commits at the tips of refs, whose common ancestors are shown too.
    pub fn tip_pairs(&self) -> (r: Vec<(usize, usize)>)
        ensures
            r@ == pairs(distinct(tip_targets(self@.tips))),
    {
        let ghost cs = tip_targets(self@.tips);
        let mut seen: Vec<usize> = Vec::new();
        let mut out: Vec<(usize, usize)> = Vec::new();
        let mut i: usize = 0;
        assert(cs.take(0) =~= seq![]);
        while i < self.tips.len()
            invariant
                i <= self.tips@.len(),
                cs == tip_targets(self@.tips),
                seen@ == distinct(cs.take(i as int)),
                out@ == pairs(seen@),
            decreases self.tips@.len() - i,
        {
            let c = self.tips[i].1;
            assert(cs.take(i + 1).drop_last() =~= cs.take(i as int));
            assert(cs.take(i + 1).last() == c);
            let ghost before = out@;
            let mut known = false;
            let mut k: usize = 0;
            while k < seen.len()
                invariant
                    k <= seen@.len(),
                    known == exists|j: int| 0 <= j < k && #[trigger] seen@[j] == c,
                decreases seen@.len() - k,
            {
                if seen[k] == c {
                    known = true;
                    assert(seen@[k as int] == c);
                }
                k = k + 1;
            }
            if known {
                assert(seen@.contains(c));
            } else {
                assert(!seen@.contains(c));
                let mut k: usize = 0;
                assert(before + ends_with(seen@, c).take(0) =~= before);
                while k < seen.len()
                    invariant
                        k <= seen@.len(),
                        out@ == before + ends_with(seen@, c).take(k as int),
                    decreases seen@.len() - k,
                {
                    out.push((seen[k], c));
                    k = k + 1;
                    assert(out@ =~= before + ends_with(seen@, c).take(k as int));
                }
                assert(ends_with(seen@, c).take(k as int) =~= ends_with(seen@, c));
                let ghost had = seen@;
                seen.push(c);
                assert(seen@.drop_last() =~= had);
                assert(pairs(seen@) == pairs(had) + ends_with(had, c));
            }
            i = i + 1;
        }
        assert(cs.take(i as int) =~= cs);
        out
    }

    /// Keeps the commit `root`, which is named ROOT, and what descends from it.
    pub fn keep_descendants(self, h: &History, root: usize) -> (r: Result<Collected, GraphError>)
        requires
            self@.nodes.len() == h@.len(),
        ensures
            match r {
                Ok(g) => can_read(h@, root) && g@ == (CollectedView {
                    nodes: descendants_of(h@, self@.nodes, root),
                    ..self@
                }),
                Err(e) => e == GraphError::MissingCommit(root) && !can_read(h@, root),
            },
    {
        if !is_readable(h, root) {
            return Err(GraphError::MissingCommit(root));
        }
        let ghost start = self@;
        let ghost ps = h.parents();
        let mut g = self;
        g.add_ref_commit(h, root);
        g.name_node(root, "ROOT".to_owned());
        let ghost named = g@;
        let ghost goal = descendants_of(h@, start.nodes, root);
        assert(named.nodes =~= with_node(h@, start.nodes, root).update(
            root as int,
            Some(with_ref(with_node(h@, start.nodes, root)[root as int]->0, "ROOT"@)),
        ));
        let n = h.len();
        let mut c: usize = 0;
        while c < n
            invariant
                n == h@.len(),
                ps == h.parents(),
                root < n,
                start.nodes.len() == n,
                named.nodes.len() == n,
                g@.nodes.len() == n,
                g@.tips == start.tips,
                g@.checkout == start.checkout,
                goal == descendants_of(h@, start.nodes, root),
                forall|i: int|
                    0 <= i < n ==> #[trigger] goal[i] == if i == root || history::descends(
                        ps,
                        i,
                        root as int,
                    ) {
                        named.nodes[i]
                    } else {
                        None
                    },
                c <= n,
                forall|i: int| 0 <= i < c ==> #[trigger] g@.nodes[i] == goal[i],
                forall|i: int| c <= i < n ==> #[trigger] g@.nodes[i] == named.nodes[i],
            decreases n - c,
        {
            let ghost before = g@;
            assert(g.nodes@.len() == n);
            assert(before.nodes[c as int] == opt_node_view(g.nodes@[c as int]));
            if c != root && g.nodes[c].is_some() {
                let set = h.ancestors(c);
                proof {
                    history::lemma_reaches_cases(ps, c as int, root as int);
                }
                if !set[root] {
                    g.nodes.set(c, None);
                }
            }
            assert(g@.nodes[c as int] == goal[c as int]);
            assert(forall|i: int|
                0 <= i < n && i != c ==> #[trigger] g@.nodes[i] == before.nodes[i]);
            c = c + 1;
        }
        assert(g@.nodes =~= goal);
        assert(g@ =~= (CollectedView { nodes: goal, ..start }));
        Ok(g)
    }

    /// Names ROOT each commit without parents that the checked out commit descends from. Every
    /// commit on the way has to be readable.
    pub fn add_root_commits(self, h: &History, head: Option<usize>) -> (r: Result<
        Collected,
        GraphError,
    >)
        requires
            self@.nodes.len() == h@.len(),
        ensures
            match r {
                Ok(g) => head matches Some(head) && can_read(h@, head) && g@ == (CollectedView {
                    nodes: with_roots(h@, self@.nodes, head),
                    ..self@
                }) && forall|c: usize|
                    #[trigger] history::reaches(
                        history::parent_lists(h@),
                        head as int,
                        c as int,
                    ) ==> can_read(h@, c),
                Err(GraphError::NoHead) => head is None,
                Err(GraphError::MissingCommit(c)) => head matches Some(head) && !can_read(h@, c)
                    && history::reaches(history::parent_lists(h@), head as int, c as int)
                    && forall|x: usize|
                    x < c && #[trigger] history::reaches(
                        history::parent_lists(h@),
                        head as int,
                        x as int,
                    ) ==> can_read(h@, x),
            },
    {
        let tip = match head {
            Some(c) => c,
            None => {
                return Err(GraphError::NoHead);
            },
        };
        let ghost ps = h.parents();
        let n = h.len();
        if tip >= n {
            proof {
                history::lemma_reaches_self(ps, tip as int);
                assert forall|x: usize|
                    x < tip && #[trigger] history::reaches(
                        ps,
                        tip as int,
                        x as int,
                    ) implies can_read(h@, x) by {
                    let steps = choose|steps: nat|
                        #[trigger] history::reaches_in(ps, tip as int, x as int, steps);
                    assert(history::reaches_in(ps, tip as int, x as int, steps));
                }
            }
            return Err(GraphError::MissingCommit(tip));
        }
        let ghost start = self@;
        let set = h.ancestors(tip);
        let mut g = self;
        let mut c: usize = 0;
        while c < n
            invariant
                n == h@.len(),
                ps == h.parents(),
                head == Some(tip),
                tip < n,
                set@.len() == n,
                forall|i: int|
                    0 <= i < n ==> #[trigger] set@[i] == history::reaches(ps, tip as int, i),
                start.nodes.len() == n,
                g@.nodes.len() == n,
                g@.tips == start.tips,
                g@.checkout == start.checkout,
                c <= n,
                forall|i: int| 0 <= i < c && #[trigger] set@[i] ==> h@[i].readable,
                forall|i: int|
                    0 <= i < c ==> #[trigger] g@.nodes[i] == with_roots(h@, start.nodes, tip)[i],
                forall|i: int| c <= i < n ==> #[trigger] g@.nodes[i] == start.nodes[i],
            decreases n - c,
        {
            let ghost before = g@;
            if set[c] {
                if !h.get(c).readable {
                    assert(ps == history::parent_lists(h@));
                    assert(history::reaches(ps, tip as int, c as int));
                    assert forall|x: usize|
                        x < c && #[trigger] history::reaches(
                            ps,
                            tip as int,
                            x as int,
                        ) implies can_read(h@, x) by {
                        assert(set@[x as int]);
                    }
                    return Err(GraphError::MissingCommit(c));
                }
                if h.get(c).parents.len() == 0 {
                    g.add_ref_commit(h, c);
                    g.name_node(c, "ROOT".to_owned());
                }
            }
            assert(set@[c as int] == history::reaches(ps, tip as int, c as int));
            assert(forall|i: int|
                0 <= i < n && i != c ==> #[trigger] g@.nodes[i] == before.nodes[i]);
            c = c + 1;
        }
        assert(g@ =~= (CollectedView { nodes: with_roots(h@, start.nodes, tip), ..start }));
        assert forall|c: usize| #[trigger] history::reaches(
            ps,
            tip as int,
            c as int,
        ) implies can_read(h@, c) by {
            let all = Seq::new(ps.len(), |i: int| true);
            history::lemma_closed_set(ps, all, tip as int, c as int);
            assert(set@[c as int]);
        }
        proof {
            history::lemma_reaches_self(ps, tip as int);
        }
        Ok(g)
    }

    /// Whether `c` is the tip of a ref, and whether it is the tip of a local branch.
    fn tip_kinds(&self, c: usize) -> (r: (bool, bool))
        ensures
            r.0 == has_tip(self@.tips, c),
            r.1 == has_local_tip(self@.tips, c),
    {
        let ghost tips = self@.tips;
        let mut any = false;
        let mut local = false;
        let mut i: usize = 0;
        while i < self.tips.len()
            invariant
                i <= self.tips@.len(),
                tips == self@.tips,
                any == exists|j: int| 0 <= j < i && #[trigger] tips[j].1 == c,
                local == exists|j: int|
                    0 <= j < i && #[trigger] tips[j].1 == c && text::starts_with(
                        tips[j].0,
                        "refs/heads/"@,
                    ),
            decreases self.tips@.len() - i,
        {
            assert(tips[i as int] == (self.tips@[i as int].0@, self.tips@[i as int].1));
            if self.tips[i].1 == c {
                any = true;
                assert(tips[i as int].1 == c);
                if begins_with(self.tips[i].0.as_str(), "refs/heads/") {
                    local = true;
                }
            }
            i = i + 1;
        }
        (any, local)
    }

    /// Tells each node whether it is a tip and whether it is checked out, and gives the tips of
    /// local branches their descriptions. `readmes` holds for each commit what the file with the
    /// description says in it, where it has that file.
    pub fn add_branch_readmes(self, readmes: &Vec<Option<String>>) -> (r: Collected)
        ensures
            r@ == (CollectedView { nodes: finished(self@, readmes@), ..self@ }),
    {
        let ghost start = self@;
        let mut g = self;
        let n = g.nodes.len();
        let mut c: usize = 0;
        while c < n
            invariant
                n == start.nodes.len(),
                n == g.nodes@.len(),
                g@.tips == start.tips,
                g@.checkout == start.checkout,
                c <= n,
                forall|i: int| 0 <= i < c ==> #[trigger] g@.nodes[i] == finished(start, readmes@)[i],
                forall|i: int| c <= i < n ==> #[trigger] g@.nodes[i] == start.nodes[i],
            decreases n - c,
        {
            let ghost before = g@;
            assert(before.nodes[c as int] == opt_node_view(g.nodes@[c as int]));
            let (tip, local) = g.tip_kinds(c);
            let current = g.checkout.is_some() && g.checkout.unwrap() == c;
            let readme = if local && c < readmes.len() {
                match &readmes[c] {
                    Some(content) => Some(describe_branch(content.as_str())),
                    None => None,
                }
            } else {
                None
            };
            match &mut g.nodes[c] {
                Some(node) => {
                    match readme {
                        Some(text) => {
                            if !text.as_str().is_empty() {
                                node.set_branch_readme(text);
                            }
                        },
                        None => {},
                    }
                    if tip {
                        node.set_tip(true);
                    }
                    if current {
                        node.set_current_checkout(true);
                    }
                },
                None => {},
            }
            assert(g@.nodes[c as int] =~= finished(start, readmes@)[c as int]);
            assert(forall|i: int|
                0 <= i < n && i != c ==> #[trigger] g@.nodes[i] == before.nodes[i]);
            c = c + 1;
        }
        assert(g@ =~= (CollectedView { nodes: finished(start, readmes@), ..start }));
        g
    }
}

/// The description of a branch: the first ten lines of its file, without the blanks round them.
fn describe_branch(content: &str) -> (r: String)
    ensures
        r@ == branch_description(content@),
{
    let all = split_lines(content);
    let mut first: Vec<String> = Vec::new();
    let ghost ls = lines::lines(content@);
    let mut i: usize = 0;
    while i < all.len() && i < 10
        invariant
            text::views(all@) == ls,
            i <= all@.len(),
            i <= 10,
            text::views(first@) =~= ls.take(i as int),
        decreases all@.len() - i,
    {
        let ghost before = text::views(first@);
        first.push(all[i].clone());
        assert(text::views(first@) =~= before.push(text::views(all@)[i as int]));
        i = i + 1;
    }
    assert(all@.len() == ls.len());
    assert(text::views(first@) =~= lines::first_lines(ls, 10));
    let whole = joined(&first, "\n");
    trimmed(whole.as_str())
}

// ---------------------------------------------------------------------------------------------
// Laws
// ---------------------------------------------------------------------------------------------

/// Whether a mark of the given kinds and name stands at `c`.
pub open spec fn marked(
    marks: Seq<MarkView>,
    c: int,
    name: Seq<char>,
    kinds: spec_fn(MarkKind) -> bool,
) -> bool {
    exists|i: int|
        0 <= i < marks.len() && (#[trigger] marks[i]).target == c && marks[i].name == name
            && kinds(marks[i].kind)
}

/// Whether a kind of mark gives a commit a ref.
pub open spec fn gives_ref() -> spec_fn(MarkKind) -> bool {
    |k: MarkKind| k == MarkKind::Ref || k == MarkKind::Stash
}

/// Whether a kind of mark gives a commit a tag.
pub open spec fn gives_tag() -> spec_fn(MarkKind) -> bool {
    |k: MarkKind| k == MarkKind::Tag
}

/// A commit has a node if and only if a mark stands at it. Its refs and its tags are the names of
/// the marks that stand at it, in order and without repetition.
pub proof fn law_marks_make_the_nodes(h: Seq<CommitRecord>, marks: Seq<MarkView>, c: int)
    requires
        all_readable(h, targets(marks)),
        0 <= c < h.len() <= usize::MAX,
    ensures
        with_marks(h, marks).nodes.len() == h.len(),
        with_marks(h, marks).nodes[c] is Some <==> targets(marks).contains(c as usize),
        with_marks(h, marks).nodes[c] matches Some(v) ==> {
            &&& v.id == h[c].id@
            &&& v.message == h[c].message@
            &&& names::ascending(v.refs)
            &&& names::ascending(v.tags)
            &&& forall|x: Seq<char>|
                #[trigger] v.refs.contains(x) <==> marked(marks, c, x, gives_ref())
            &&& forall|x: Seq<char>|
                #[trigger] v.tags.contains(x) <==> marked(marks, c, x, gives_tag())
        },
    decreases marks.len(),
{
    if marks.len() > 0 {
        let before = marks.drop_last();
        let m = marks.last();
        let cs = targets(marks);
        assert(forall|i: int| 0 <= i < before.len() ==> before[i] == marks[i]);
        assert forall|i: int| 0 <= i < targets(before).len() implies can_read(
            h,
            #[trigger] targets(before)[i],
        ) by {
            assert(targets(before)[i] == cs[i]);
        }
        law_marks_make_the_nodes(h, before, c);
        assert(cs[marks.len() - 1] == m.target);
        assert(can_read(h, m.target));
        lemma_targets_push(before, m, c as usize);
        assert(before.push(m) =~= marks);
        let old_nodes = with_marks(h, before).nodes;
        let nodes = with_node(h, old_nodes, m.target);
        assert forall|x: Seq<char>| #[trigger]
            marked(marks, c, x, gives_ref()) == (marked(before, c, x, gives_ref()) || (m.target == c
            && m.name == x && gives_ref()(m.kind))) by {
            lemma_marked_push(before, m, c, x, gives_ref());
        }
        assert forall|x: Seq<char>| #[trigger]
            marked(marks, c, x, gives_tag()) == (marked(before, c, x, gives_tag()) || (m.target == c
            && m.name == x && gives_tag()(m.kind))) by {
            lemma_marked_push(before, m, c, x, gives_tag());
        }
        if m.target == c {
            let v = nodes[c]->0;
            if old_nodes[c] is None {
                assert forall|x: Seq<char>| !marked(before, c, x, gives_ref()) && !marked(
                    before,
                    c,
                    x,
                    gives_tag(),
                ) by {
                    lemma_unmarked(before, c, x, gives_ref());
                    lemma_unmarked(before, c, x, gives_tag());
                }
            }
            names::lemma_with_name(v.refs, m.name);
            names::lemma_with_name(v.tags, m.name);
        } else {
            assert(with_marks(h, marks).nodes[c] == old_nodes[c]);
        }
    } else {
        assert(targets(marks) =~= seq![]);
    }
}

proof fn lemma_targets_push(marks: Seq<MarkView>, m: MarkView, c: usize)
    ensures
        targets(marks.push(m)).contains(c) <==> targets(marks).contains(c) || m.target == c,
{
    let all = targets(marks.push(m));
    assert(all =~= targets(marks).push(m.target));
    if targets(marks).contains(c) {
        let i = choose|i: int| 0 <= i < targets(marks).len() && targets(marks)[i] == c;
        assert(all[i] == c);
    }
    if m.target == c {
        assert(all[marks.len() as int] == c);
    }
}

proof fn lemma_marked_push(
    marks: Seq<MarkView>,
    m: MarkView,
    c: int,
    x: Seq<char>,
    kinds: spec_fn(MarkKind) -> bool,
)
    ensures
        marked(marks.push(m), c, x, kinds) == (marked(marks, c, x, kinds) || (m.target == c
            && m.name == x && kinds(m.kind))),
{
    let all = marks.push(m);
    if marked(marks, c, x, kinds) {
        let i = choose|i: int|
            0 <= i < marks.len() && (#[trigger] marks[i]).target == c && marks[i].name == x
                && kinds(marks[i].kind);
        assert(all[i] == marks[i]);
    }
    if m.target == c && m.name == x && kinds(m.kind) {
        assert(all[marks.len() as int] == m);
    }
    if marked(all, c, x, kinds) {
        let i = choose|i: int|
            0 <= i < all.len() && (#[trigger] all[i]).target == c && all[i].name == x && kinds(
                all[i].kind,
            );
        if i < marks.len() {
            assert(marks[i] == all[i]);
        }
    }
}

proof fn lemma_unmarked(
    marks: Seq<MarkView>,
    c: int,
    x: Seq<char>,
    kinds: spec_fn(MarkKind) -> bool,
)
    requires
        0 <= c <= usize::MAX,
        !targets(marks).contains(c as usize),
    ensures
        !marked(marks, c, x, kinds),
{
    if marked(marks, c, x, kinds) {
        let i = choose|i: int|
            0 <= i < marks.len() && (#[trigger] marks[i]).target == c && marks[i].name == x
                && kinds(marks[i].kind);
        assert(targets(marks)[i] == c as usize);
    }
}

/// Every two different commits at tips make one pair, and no commit is paired with itself.
pub proof fn law_tips_are_paired_once(cs: Seq<usize>, a: usize, b: usize)
    requires
        cs.contains(a),
        cs.contains(b),
        a != b,
    ensures
        pairs(distinct(cs)).contains((a, b)) != pairs(distinct(cs)).contains((b, a)),
        !pairs(distinct(cs)).contains((a, a)),
        pairs(distinct(cs)).no_duplicates(),
{
    lemma_distinct(cs, a);
    lemma_distinct(cs, b);
    let d = distinct(cs);
    let i = choose|i: int| 0 <= i < d.len() && d[i] == a;
    let j = choose|j: int| 0 <= j < d.len() && d[j] == b;
    lemma_pairs(d);
    if i < j {
        assert(pairs(d).contains((d[i], d[j])));
    } else {
        assert(pairs(d).contains((d[j], d[i])));
    }
}

proof fn lemma_distinct(cs: Seq<usize>, c: usize)
    ensures
        distinct(cs).contains(c) <==> cs.contains(c),
        distinct(cs).no_duplicates(),
    decreases cs.len(),
{
    if cs.len() > 0 {
        let before = cs.drop_last();
        lemma_distinct(before, c);
        let had = distinct(before);
        let x = cs.last();
        if cs.contains(c) {
            let i = choose|i: int| 0 <= i < cs.len() && cs[i] == c;
            if i < before.len() {
                assert(before[i] == c);
            }
        }
        if before.contains(c) {
            let i = choose|i: int| 0 <= i < before.len() && before[i] == c;
            assert(cs[i] == c);
        }
        assert(cs[cs.len() - 1] == x);
        if !had.contains(x) {
            let now = had.push(x);
            assert(now[had.len() as int] == x);
            if had.contains(c) {
                let i = choose|i: int| 0 <= i < had.len() && had[i] == c;
                assert(now[i] == c);
            }
            if now.contains(c) {
                let i = choose|i: int| 0 <= i < now.len() && now[i] == c;
                if i < had.len() {
                    assert(had[i] == c);
                }
            }
        }
    }
}

/// The pairs of a sequence without repetition join its places in order.
proof fn lemma_pairs(d: Seq<usize>)
    requires
        d.no_duplicates(),
    ensures
        forall|i: int, j: int|
            0 <= i < j < d.len() ==> pairs(d).contains((#[trigger] d[i], #[trigger] d[j])),
        forall|k: int|
            0 <= k < pairs(d).len() ==> exists|i: int, j: int|
                0 <= i < j < d.len() && #[trigger] pairs(d)[k] == (#[trigger] d[i], #[trigger] d[j]),
        pairs(d).no_duplicates(),
    decreases d.len(),
{
    if d.len() > 0 {
        let before = d.drop_last();
        let x = d.last();
        let old_pairs = pairs(before);
        let new_pairs = ends_with(before, x);
        let all = pairs(d);
        lemma_pairs(before);
        assert(all =~= old_pairs + new_pairs);
        assert forall|i: int, j: int| 0 <= i < j < d.len() implies all.contains(
            (#[trigger] d[i], #[trigger] d[j]),
        ) by {
            if j < before.len() {
                assert(old_pairs.contains((before[i], before[j])));
                let k = choose|k: int|
                    0 <= k < old_pairs.len() && old_pairs[k] == (before[i], before[j]);
                assert(all[k] == (d[i], d[j]));
            } else {
                assert(all[old_pairs.len() + i] == (d[i], d[j]));
            }
        }
        assert forall|k: int| 0 <= k < all.len() implies exists|i: int, j: int|
            0 <= i < j < d.len() && #[trigger] all[k] == (#[trigger] d[i], #[trigger] d[j]) by {
            if k < old_pairs.len() {
                let (i, j) = choose|i: int, j: int|
                    0 <= i < j < before.len() && #[trigger] old_pairs[k] == (
                        #[trigger] before[i],
                        #[trigger] before[j],
                    );
                assert(all[k] == (d[i], d[j]));
            } else {
                assert(all[k] == (d[k - old_pairs.len()], d[d.len() - 1]));
            }
        }
        assert(all.no_duplicates()) by {
            assert forall|k: int, m: int| 0 <= k < m < all.len() implies all[k] != all[m] by {
                if m >= old_pairs.len() {
                    assert(all[m] == new_pairs[m - old_pairs.len()]);
                    if k < old_pairs.len() {
                        assert(all[k] == old_pairs[k]);
                        let (i, j) = choose|i: int, j: int|
                            0 <= i < j < before.len() && #[trigger] old_pairs[k] == (
                                #[trigger] before[i],
                                #[trigger] before[j],
                            );
                        assert(d[j] != d[d.len() - 1]);
                    } else {
                        assert(d[k - old_pairs.len()] != d[m - old_pairs.len()]);
                    }
                } else {
                    assert(all[k] == old_pairs[k]);
                    assert(all[m] == old_pairs[m]);
                }
            }
        }
    }
}

} // verus!
