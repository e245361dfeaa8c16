//! The condensed graph: the commits that are shown, the junctions between them, and the edges.

use vstd::prelude::*;

use crate::commit_node::{CommitNode, NodeView};
use crate::history;
use crate::history::{CommitRecord, History};
use crate::nodes;
use crate::nodes::Collected;
use crate::traverse;
use crate::traverse::{condensed_set, find_condensed_connections};

verus! {

/// A condensed graph. For each commit of the history it holds its node, if it is in the graph,
/// and its parents in the graph.
#[derive(Debug)]
pub struct CondensedGraph {
    nodes: Vec<Option<CommitNode>>,
    parents: Vec<Vec<usize>>,
}

/// What a condensed graph holds.
#[verifier::ext_equal]
pub struct CondensedView {
    pub nodes: Seq<Option<NodeView>>,
    pub parents: Seq<Seq<usize>>,
}

/// What lists of parents hold.
pub open spec fn list_views(v: Seq<Vec<usize>>) -> Seq<Seq<usize>> {
    Seq::new(v.len(), |i: int| v[i]@)
}

impl View for CondensedGraph {
    type V = CondensedView;

    closed spec fn view(&self) -> CondensedView {
        CondensedView { nodes: nodes::node_views(self.nodes@), parents: list_views(self.parents@) }
    }
}

/// The commits that have a node.
pub open spec fn shown_set(nodes: Seq<Option<NodeView>>) -> Seq<bool> {
    Seq::new(nodes.len(), |c: int| nodes[c] is Some)
}

/// The commits that are stashes.
pub open spec fn stash_set(nodes: Seq<Option<NodeView>>) -> Seq<bool> {
    Seq::new(nodes.len(), |c: int| nodes[c] matches Some(v) && v.is_stash)
}

/// The commits of the condensed graph.
pub open spec fn kept_set(ps: Seq<Seq<usize>>, nodes: Seq<Option<NodeView>>) -> Seq<bool> {
    Seq::new(
        nodes.len(),
        |c: int| traverse::condensed(ps, shown_set(nodes), stash_set(nodes), c),
    )
}

/// The condensed graph of the given nodes.
pub open spec fn condensed_graph(
    h: Seq<CommitRecord>,
    nodes: Seq<Option<NodeView>>,
) -> CondensedView {
    let ps = history::parent_lists(h);
    let kept = kept_set(ps, nodes);
    CondensedView {
        nodes: Seq::new(
            nodes.len(),
            |c: int|
                match nodes[c] {
                    Some(v) => Some(v),
                    None => if kept[c] {
                        Some(nodes::plain_node(h[c]))
                    } else {
                        None
                    },
                },
        ),
        parents: Seq::new(
            nodes.len(),
            |c: int|
                if kept[c] {
                    traverse::condensed_parents(ps, kept, stash_set(nodes), c)
                } else {
                    seq![]
                },
        ),
    }
}

/// The edges of a graph, from parent to child, in the order of the children.
pub open spec fn edge_list(parents: Seq<Seq<usize>>) -> Seq<(usize, usize)>
    decreases parents.len(),
{
    if parents.len() == 0 {
        seq![]
    } else {
        edge_list(parents.drop_last()) + nodes::ends_with(
            parents.last(),
            (parents.len() - 1) as usize,
        )
    }
}

/// How many nodes there are.
pub open spec fn count_nodes(nodes: Seq<Option<NodeView>>) -> nat
    decreases nodes.len(),
{
    if nodes.len() == 0 {
        0
    } else {
        count_nodes(nodes.drop_last()) + if nodes.last() is Some {
            1nat
        } else {
            0nat
        }
    }
}

/// Whether both ends of every edge are in the graph.
pub open spec fn joined(d: CondensedView) -> bool {
    &&& d.parents.len() == d.nodes.len()
    &&& forall|c: int, k: int|
        0 <= c < d.parents.len() && 0 <= k < d.parents[c].len() ==> d.nodes[c] is Some && (
        #[trigger] d.parents[c][k]) < d.nodes.len() && d.nodes[d.parents[c][k] as int] is Some
}

/// Every entry of the list of edges is a parent and its child.
pub proof fn lemma_edge_list(parents: Seq<Seq<usize>>, i: int)
    requires
        0 <= i < edge_list(parents).len(),
        parents.len() <= usize::MAX,
    ensures
        exists|c: int, k: int|
            0 <= c < parents.len() && 0 <= k < parents[c].len() && edge_list(parents)[i] == (
                #[trigger] parents[c][k],
                c as usize,
            ),
    decreases parents.len(),
{
    let before = parents.drop_last();
    let n = edge_list(before).len();
    if i < n {
        lemma_edge_list(before, i);
        let (c, k) = choose|c: int, k: int|
            0 <= c < before.len() && 0 <= k < before[c].len() && edge_list(before)[i] == (
                #[trigger] before[c][k],
                c as usize,
            );
        assert(parents[c][k] == before[c][k]);
    } else {
        let c = parents.len() - 1;
        assert(edge_list(parents)[i] == (parents[c][i - n], c as usize));
    }
}

/// The condensed graph of the commits that are shown.
pub fn build_condensed_graph(h: &History, collected: Collected) -> (r: CondensedGraph)
    requires
        collected@.nodes.len() == h@.len(),
    ensures
        r@ == condensed_graph(h@, collected@.nodes),
{
    let ghost views = collected@.nodes;
    let ghost ps = h.parents();
    let n = h.len();
    let mut all = collected.nodes;
    let mut shown: Vec<bool> = Vec::new();
    let mut stash: Vec<bool> = Vec::new();
    let mut c: usize = 0;
    while c < n
        invariant
            n == h@.len(),
            views.len() == n,
            views == nodes::node_views(all@),
            c <= n,
            shown@ =~= shown_set(views).take(c as int),
            stash@ =~= stash_set(views).take(c as int),
        decreases n - c,
    {
        assert(views[c as int] == nodes::opt_node_view(all@[c as int]));
        match &all[c] {
            Some(node) => {
                shown.push(true);
                stash.push(node.stashed());
            },
            None => {
                shown.push(false);
                stash.push(false);
            },
        }
        c = c + 1;
    }
    assert(shown@ =~= shown_set(views));
    assert(stash@ =~= stash_set(views));
    let kept = condensed_set(h, &shown, &stash);
    assert(kept@ =~= kept_set(ps, views));
    let ghost goal = condensed_graph(h@, views);
    let mut parents: Vec<Vec<usize>> = Vec::new();
    let mut c: usize = 0;
    while c < n
        invariant
            n == h@.len(),
            ps == h.parents(),
            views.len() == n,
            all@.len() == n,
            kept@.len() == n,
            stash@.len() == n,
            kept@ == kept_set(ps, views),
            stash@ == stash_set(views),
            goal == condensed_graph(h@, views),
            c <= n,
            forall|i: int|
                0 <= i < c ==> #[trigger] nodes::opt_node_view(all@[i]) == goal.nodes[i],
            forall|i: int| c <= i < n ==> #[trigger] nodes::opt_node_view(all@[i]) == views[i],
            list_views(parents@) =~= goal.parents.take(c as int),
        decreases n - c,
    {
        let ghost before = list_views(parents@);
        let ghost was = all@;
        assert(nodes::opt_node_view(all@[c as int]) == views[c as int]);
        if kept[c] {
            if all[c].is_none() {
                let record = h.get(c);
                let node = CommitNode::new(
                    record.id.as_str(),
                    record.message.as_str(),
                    record.timestamp,
                );
                assert(node@ == nodes::plain_node(h@[c as int]));
                all.set(c, Some(node));
            }
            let list = find_condensed_connections(h, &kept, &stash, c);
            let ghost v = list@;
            parents.push(list);
            assert(list_views(parents@) =~= before.push(v));
        } else {
            let list: Vec<usize> = Vec::new();
            let ghost v = list@;
            parents.push(list);
            assert(list_views(parents@) =~= before.push(v));
        }
        assert(nodes::opt_node_view(all@[c as int]) == goal.nodes[c as int]);
        assert forall|i: int| 0 <= i < n && i != c implies #[trigger] nodes::opt_node_view(all@[i])
            == nodes::opt_node_view(was[i]) by {
            assert(all@[i] == was[i]);
        }
        c = c + 1;
    }
    assert(nodes::node_views(all@) =~= goal.nodes) by {
        assert(forall|i: int|
            0 <= i < n ==> #[trigger] nodes::node_views(all@)[i] == nodes::opt_node_view(all@[i]));
    }
    assert(list_views(parents@) =~= goal.parents);
    assert(joined(goal)) by {
        assert forall|c: int, k: int|
            0 <= c < goal.parents.len() && 0 <= k < goal.parents[c].len() implies goal.nodes[c] is Some
            && (#[trigger] goal.parents[c][k]) < goal.nodes.len()
            && goal.nodes[goal.parents[c][k] as int] is Some by {
            law_edges_join_ancestor_and_descendant(h@, views, c, k);
        }
    }
    CondensedGraph { nodes: all, parents }
}

impl CondensedGraph {
    #[verifier::type_invariant]
    spec fn well_formed(&self) -> bool {
        joined(self@)
    }

    /// The node of the commit at place `c`, if it is in the graph.
    pub fn node(&self, c: usize) -> (r: Option<&CommitNode>)
        ensures
            match r {
                Some(node) => (c as int) < self@.nodes.len() && self@.nodes[c as int] == Some(
                    node@,
                ),
                None => (c as int) < self@.nodes.len() ==> self@.nodes[c as int] is None,
            },
    {
        if c < self.nodes.len() {
            assert(self@.nodes[c as int] == nodes::opt_node_view(self.nodes@[c as int]));
            match &self.nodes[c] {
                Some(node) => Some(node),
                None => None,
            }
        } else {
            None
        }
    }

    /// The number of places in the history, in the graph or not.
    pub fn len(&self) -> (r: usize)
        ensures
            r == self@.nodes.len(),
            joined(self@),
    {
        proof {
            use_type_invariant(self);
        }
        self.nodes.len()
    }

    /// How many nodes there are.
    pub fn node_count(&self) -> (r: usize)
        ensures
            r == count_nodes(self@.nodes),
    {
        let mut count: usize = 0;
        let mut i: usize = 0;
        let ghost views = self@.nodes;
        assert(views.take(0) =~= seq![]);
        while i < self.nodes.len()
            invariant
                i <= self.nodes@.len(),
                views == self@.nodes,
                count <= i,
                count == count_nodes(views.take(i as int)),
            decreases self.nodes@.len() - i,
        {
            assert(views.take(i + 1).drop_last() =~= views.take(i as int));
            assert(views.take(i + 1).last() == nodes::opt_node_view(self.nodes@[i as int]));
            if self.nodes[i].is_some() {
                count = count + 1;
            }
            i = i + 1;
        }
        assert(views.take(i as int) =~= views);
        count
    }

    /// The edges, from parent to child. Both are in the graph.
    pub fn edges(&self) -> (r: Vec<(usize, usize)>)
        ensures
            r@ == edge_list(self@.parents),
            forall|i: int|
                #![trigger r@[i]]
                0 <= i < r@.len() ==> r@[i].0 < self@.nodes.len() && self@.nodes[r@[i].0 as int] is Some
                    && r@[i].1 < self@.nodes.len() && self@.nodes[r@[i].1 as int] is Some,
    {
        proof {
            use_type_invariant(self);
        }
        let ghost views = self@.parents;
        let mut out: Vec<(usize, usize)> = Vec::new();
        let mut c: usize = 0;
        assert(views.take(0) =~= seq![]);
        while c < self.parents.len()
            invariant
                c <= self.parents.len(),
                views == self@.parents,
                out@ == edge_list(views.take(c as int)),
            decreases self.parents@.len() - c,
        {
            let ghost before = out@;
            let ghost list = views[c as int];
            assert(views.take(c + 1).drop_last() =~= views.take(c as int));
            assert(views.take(c + 1).last() == list);
            assert(list == self.parents@[c as int]@);
            assert(before + nodes::ends_with(list, c).take(0) =~= before);
            let mut k: usize = 0;
            while k < self.parents[c].len()
                invariant
                    c < self.parents@.len(),
                    list == self.parents@[c as int]@,
                    k <= list.len(),
                    out@ == before + nodes::ends_with(list, c).take(k as int),
                decreases list.len() - k,
            {
                out.push((self.parents[c][k], c));
                k = k + 1;
                assert(out@ =~= before + nodes::ends_with(list, c).take(k as int));
            }
            assert(nodes::ends_with(list, c).take(k as int) =~= nodes::ends_with(list, c));
            c = c + 1;
        }
        assert(views.take(c as int) =~= views);
        assert forall|i: int| #![trigger out@[i]] 0 <= i < out@.len() implies out@[i].0
            < self@.nodes.len() && self@.nodes[out@[i].0 as int] is Some && out@[i].1
            < self@.nodes.len() && self@.nodes[out@[i].1 as int] is Some by {
            lemma_edge_list(views, i);
            let (c, k) = choose|c: int, k: int|
                0 <= c < views.len() && 0 <= k < views[c].len() && edge_list(views)[i] == (
                    #[trigger] views[c][k],
                    c as usize,
                );
            assert(self@.parents[c][k] == views[c][k]);
        }
        out
    }
}

/// Every edge of a condensed graph joins two of its commits, and leads from an ancestor to a
/// descendant. No edge stands there twice.
pub proof fn law_edges_join_ancestor_and_descendant(
    h: Seq<CommitRecord>,
    nodes: Seq<Option<NodeView>>,
    c: int,
    k: int,
)
    requires
        history::in_range(history::parent_lists(h)),
        nodes.len() == h.len(),
        0 <= c < h.len(),
        0 <= k < condensed_graph(h, nodes).parents[c].len(),
    ensures
        condensed_graph(h, nodes).nodes[c] is Some,
        condensed_graph(h, nodes).parents[c][k] < h.len(),
        condensed_graph(h, nodes).nodes[condensed_graph(h, nodes).parents[c][k] as int] is Some,
        history::descends(
            history::parent_lists(h),
            c,
            condensed_graph(h, nodes).parents[c][k] as int,
        ),
        condensed_graph(h, nodes).parents[c].no_duplicates(),
{
    let ps = history::parent_lists(h);
    traverse::law_condensed_parents_are_ancestors(ps, kept_set(ps, nodes), stash_set(nodes), c);
    let p = traverse::condensed_parents(ps, kept_set(ps, nodes), stash_set(nodes), c)[k];
    assert(p == condensed_graph(h, nodes).parents[c][k]);
}

/// A condensed graph holds every commit that is shown, as it is. Of the others it holds only
/// merges that lie between commits that are shown: one of these reaches them, and they descend
/// from one.
pub proof fn law_others_are_merges_in_between(
    h: Seq<CommitRecord>,
    nodes: Seq<Option<NodeView>>,
    c: int,
)
    requires
        nodes.len() == h.len() <= usize::MAX,
        0 <= c < h.len(),
    ensures
        nodes[c] is Some ==> condensed_graph(h, nodes).nodes[c] == nodes[c],
        nodes[c] is None && condensed_graph(h, nodes).nodes[c] is Some ==> {
            &&& condensed_graph(h, nodes).nodes[c] == Some(nodes::plain_node(h[c]))
            &&& history::followed(h[c]).len() > 1
            &&& exists|s: int|
                0 <= s < h.len() && nodes[s] is Some && #[trigger] history::reaches(
                    history::parent_lists(h),
                    s,
                    c,
                )
            &&& exists|r: int|
                0 <= r < h.len() && nodes[r] is Some && #[trigger] history::descends(
                    history::parent_lists(h),
                    c,
                    r,
                )
        },
{
    let ps = history::parent_lists(h);
    let shown = shown_set(nodes);
    let stash = stash_set(nodes);
    if nodes[c] is None && condensed_graph(h, nodes).nodes[c] is Some {
        traverse::law_junction_has_shown_ancestor(ps, shown, stash, c);
        let r = choose|r: int|
            0 <= r < ps.len() && shown[r] && #[trigger] history::descends(ps, c, r);
        assert(nodes[r] is Some && history::descends(ps, c, r));
        let s = choose|s: int|
            0 <= s < shown.len() && shown[s] && #[trigger] traverse::visited(
                ps,
                shown,
                stash,
                s as usize,
            )[c] && traverse::junction(ps, shown, c);
        traverse::law_visiting_is_reaching(ps, shown, stash, s as usize, c);
        assert(nodes[s] is Some && history::reaches(ps, s, c));
    }
}

/// Where every node is `root` or descends from it, so does every junction.
pub proof fn lemma_junctions_descend(
    h: Seq<CommitRecord>,
    nodes: Seq<Option<NodeView>>,
    root: usize,
    c: int,
)
    requires
        nodes.len() == h.len(),
        forall|i: int|
            0 <= i < nodes.len() && #[trigger] nodes[i] is Some ==> i == root || history::descends(
                history::parent_lists(h),
                i,
                root as int,
            ),
        0 <= c < h.len(),
        condensed_graph(h, nodes).nodes[c] is Some,
    ensures
        c == root || history::descends(history::parent_lists(h), c, root as int),
{
    let ps = history::parent_lists(h);
    if nodes[c] is None {
        traverse::law_junction_has_shown_ancestor(ps, shown_set(nodes), stash_set(nodes), c);
        let r = choose|r: int|
            0 <= r < ps.len() && shown_set(nodes)[r] && #[trigger] history::descends(ps, c, r);
        assert(nodes[r] is Some);
        history::lemma_reaches_cases(ps, c, r);
        history::lemma_reaches_cases(ps, r, root as int);
        history::lemma_reaches_transitive(ps, c, r, root as int);
    }
}

} // verus!
