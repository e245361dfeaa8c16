//! From a repository to a DOT file: which commits the graph shows, and the text of the graph.

use vstd::prelude::*;

use crate::commit_node;
use crate::commit_node::{CommitNode, NodeView};
use crate::condensed;
use crate::condensed::{build_condensed_graph, CondensedGraph, CondensedView};
use crate::edge;
use crate::edge::{
    build_edge_attrs, build_tooltip, collect_path_commits_with_count, edge_heatmap_color,
    edge_penwidth, list_files, EdgeRecord,
};
use crate::escape;
use crate::escape::tooltip_escape;
use crate::history;
use crate::history::CommitRecord;
use crate::lines;
use crate::lines::trimmed;
use crate::names;
use crate::nodes;
use crate::nodes::{collect, Collected, CollectedView, GraphError};
use crate::percent;
use crate::percent::url_encode_ref;
use crate::search;
use crate::search::{cut_once, has_text, joined};
use crate::snapshot;
use crate::snapshot::{collect_marks, Selection, Snapshot};
use crate::text;
use crate::text::{begins_with, same_text, take_chars, without_prefix, without_trailing};
use crate::theme;
use crate::theme::Theme;
use crate::utils;
use crate::utils::{time_ago_at, unix_seconds};

verus! {

// ---------------------------------------------------------------------------------------------
// Forge
// ---------------------------------------------------------------------------------------------

/// A remote of the repository.
#[derive(Debug)]
pub struct RemoteRecord {
    pub name: String,
    /// Its URL, where it has one that is text.
    pub url: Option<String>,
}

/// The web address of a repository whose remote has the given URL, if that can be told from it:
/// `git@host:path` and the HTTP forms are understood, with or without `.git` at the end.
pub open spec fn web_address(url: Seq<char>) -> Option<Seq<char>> {
    let ssh = match text::strip_prefix(url, "git@"@) {
        Some(rest) => search::split_once(rest, ":"@),
        None => None,
    };
    match ssh {
        Some(p) => Some("https://"@ + p.0 + "/"@ + text::trim_end_matches(p.1, ".git"@)),
        None => if text::starts_with(url, "https://"@) || text::starts_with(url, "http://"@) {
            Some(text::trim_end_matches(url, ".git"@))
        } else {
            None
        },
    }
}

/// The web address that a remote gives.
pub open spec fn remote_address(r: RemoteRecord) -> Option<Seq<char>> {
    match r.url {
        Some(url) => web_address(url@),
        None => None,
    }
}

/// The web address that the first of the given remotes gives, of those that are called `origin`
/// or of those that are not.
pub open spec fn first_address(remotes: Seq<RemoteRecord>, origin: bool) -> Option<Seq<char>>
    decreases remotes.len(),
{
    if remotes.len() == 0 {
        None
    } else {
        let r = remotes[0];
        match remote_address(r) {
            Some(url) if (r.name@ == "origin"@) == origin => Some(url),
            _ => first_address(remotes.drop_first(), origin),
        }
    }
}

/// The web address that the remotes give: that of `origin`, else of the first other one.
pub open spec fn detected_address(remotes: Seq<RemoteRecord>) -> Option<Seq<char>> {
    match first_address(remotes, true) {
        Some(url) => Some(url),
        None => first_address(remotes, false),
    }
}

/// The web address of a repository whose remote has the given URL.
pub fn parse_gitlab_remote_url(url: &str) -> (r: Option<String>)
    ensures
        text::opt_view(r) == web_address(url@),
{
    match without_prefix(url, "git@") {
        Some(rest) => {
            match cut_once(rest.as_str(), ":") {
                Some((host, path)) => {
                    let mut out = "https://".to_owned();
                    out.append(host.as_str());
                    out.append("/");
                    let path = without_trailing(path.as_str(), ".git");
                    out.append(path.as_str());
                    return Some(out);
                },
                None => {},
            }
        },
        None => {},
    }
    if begins_with(url, "https://") || begins_with(url, "http://") {
        return Some(without_trailing(url, ".git"));
    }
    None
}

/// The web address that the first of the given remotes gives.
fn find_address(remotes: &Vec<RemoteRecord>, origin: bool) -> (r: Option<String>)
    ensures
        text::opt_view(r) == first_address(remotes@, origin),
{
    let mut i: usize = 0;
    assert(remotes@.skip(0) =~= remotes@);
    while i < remotes.len()
        invariant
            i <= remotes@.len(),
            first_address(remotes@, origin) == first_address(remotes@.skip(i as int), origin),
        decreases remotes@.len() - i,
    {
        assert(remotes@.skip(i as int).drop_first() =~= remotes@.skip(i + 1));
        assert(remotes@.skip(i as int)[0] == remotes@[i as int]);
        if same_text(remotes[i].name.as_str(), "origin") == origin {
            match &remotes[i].url {
                Some(url) => {
                    let address = parse_gitlab_remote_url(url.as_str());
                    if address.is_some() {
                        return address;
                    }
                },
                None => {},
            }
        }
        i = i + 1;
    }
    None
}

/// The web address that the remotes give.
pub fn detect_gitlab_url(remotes: &Vec<RemoteRecord>) -> (r: Option<String>)
    ensures
        text::opt_view(r) == detected_address(remotes@),
{
    let first = find_address(remotes, true);
    if first.is_some() {
        return first;
    }
    find_address(remotes, false)
}

// ---------------------------------------------------------------------------------------------
// From refs to the condensed graph
// ---------------------------------------------------------------------------------------------

/// A graph to be made of a repository.
#[derive(Debug)]
pub struct GitGraphviz {
    pub snapshot: Snapshot,
    pub selection: Selection,
    /// The web address that edges lead to.
    pub gitlab_base_url: Option<String>,
    /// The commit to which the graph is limited, with its descendants.
    pub ancestor: Option<usize>,
    pub theme: Theme,
}

impl GitGraphviz {
    /// A graph of the repository. Without a web address the remotes are asked for one.
    pub fn new(
        snapshot: Snapshot,
        remotes: &Vec<RemoteRecord>,
        selection: Selection,
        gitlab_url: Option<String>,
        ancestor: Option<usize>,
        theme: Theme,
    ) -> (r: Self)
        ensures
            r.snapshot == snapshot,
            r.selection == selection,
            text::opt_view(r.gitlab_base_url) == (match gitlab_url {
                Some(url) => Some(url@),
                None => detected_address(remotes@),
            }),
            r.ancestor == ancestor,
            r.theme == theme,
    {
        let gitlab_base_url = match gitlab_url {
            Some(url) => Some(url),
            None => detect_gitlab_url(remotes),
        };
        GitGraphviz { snapshot, selection, gitlab_base_url, ancestor, theme }
    }

    /// The web address of the repository.
    pub fn forge_url(&self) -> (r: Option<&str>)
        ensures
            text::opt_str_view(r) == text::opt_view(self.gitlab_base_url),
    {
        match &self.gitlab_base_url {
            Some(url) => Some(url.as_str()),
            None => None,
        }
    }

    /// The marks of the graph.
    pub open spec fn marks(&self) -> Seq<snapshot::MarkView> {
        snapshot::all_marks(self.snapshot, self.selection)
    }

    /// The commits that refs point at, with their names. Every one of them has to be readable.
    pub fn collect_refs(&self) -> (r: Result<Collected, GraphError>)
        ensures
            match r {
                Ok(g) => nodes::all_readable(self.snapshot.history@, nodes::targets(self.marks()))
                    && g@ == nodes::with_marks(self.snapshot.history@, self.marks()) && g@.nodes.len()
                    == self.snapshot.history@.len(),
                Err(e) => e matches GraphError::MissingCommit(c) && nodes::first_missing(
                    self.snapshot.history@,
                    nodes::targets(self.marks()),
                    c,
                ),
            },
    {
        collect(&self.snapshot.history, collect_marks(&self.snapshot, &self.selection))
    }

    /// Whether the common ancestors of tips can all be read. Under a limit they are not looked at.
    pub open spec fn bases_readable(&self, bases: Seq<usize>) -> bool {
        self.selection.limit > 0 || nodes::all_readable(self.snapshot.history@, bases)
    }

    /// Whether the commits beyond the refs can all be read: the common ancestors `bases`, and the
    /// commit that the graph is limited to, or else, without a limit on the number of commits, all
    /// that the checked out commit reaches.
    pub open spec fn can_place(&self, bases: Seq<usize>) -> bool {
        let h = self.snapshot.history@;
        self.bases_readable(bases) && match self.ancestor {
            Some(root) => nodes::can_read(h, root),
            None => self.selection.limit > 0 || match self.snapshot.head {
                Some(head) => forall|c: usize|
                    #[trigger] history::reaches(
                        history::parent_lists(h),
                        head as int,
                        c as int,
                    ) ==> nodes::can_read(h, c),
                None => false,
            },
        }
    }

    /// Whether `e` is why the commits beyond the refs cannot be placed.
    pub open spec fn place_error(&self, bases: Seq<usize>, e: GraphError) -> bool {
        let h = self.snapshot.history@;
        match e {
            GraphError::NoHead => self.selection.limit == 0 && self.bases_readable(bases)
                && self.ancestor is None && self.snapshot.head is None,
            GraphError::MissingCommit(c) => !nodes::can_read(h, c) && if self.bases_readable(
                bases,
            ) {
                match self.ancestor {
                    Some(root) => c == root,
                    None => self.selection.limit == 0 && match self.snapshot.head {
                        Some(head) => history::reaches(
                            history::parent_lists(h),
                            head as int,
                            c as int,
                        ) && forall|x: usize|
                            x < c && #[trigger] history::reaches(
                                history::parent_lists(h),
                                head as int,
                                x as int,
                            ) ==> nodes::can_read(h, x),
                        None => false,
                    },
                }
            } else {
                nodes::first_missing(h, bases, c)
            },
        }
    }

    /// The nodes with the common ancestors of tips. Under a limit they are left out.
    pub open spec fn based(&self, g: CollectedView, bases: Seq<usize>) -> Seq<Option<NodeView>> {
        if self.selection.limit > 0 {
            g.nodes
        } else {
            nodes::with_nodes(self.snapshot.history@, g.nodes, bases)
        }
    }

    /// The collection with the commits beyond the refs: the common ancestors of tips, and the
    /// roots. A graph that is limited to a commit has that one for its root, and loses what does
    /// not descend from it. Under a limit on the number of commits there are no other roots.
    pub open spec fn placed(&self, g: CollectedView, bases: Seq<usize>) -> CollectedView {
        let h = self.snapshot.history@;
        let based = self.based(g, bases);
        CollectedView {
            nodes: match self.ancestor {
                Some(root) => nodes::descendants_of(h, based, root),
                None => if self.selection.limit > 0 {
                    based
                } else {
                    nodes::with_roots(h, based, self.snapshot.head->0)
                },
            },
            ..g
        }
    }

    /// The condensed graph that a collection of refs leads to.
    pub open spec fn condensed(
        &self,
        g: CollectedView,
        bases: Seq<usize>,
        readmes: Seq<Option<String>>,
    ) -> CondensedView {
        condensed::condensed_graph(
            self.snapshot.history@,
            nodes::finished(self.placed(g, bases), readmes),
        )
    }

    /// Adds the commits beyond the refs.
    fn place(&self, collected: Collected, bases: &Vec<usize>) -> (r: Result<Collected, GraphError>)
        requires
            collected@.nodes.len() == self.snapshot.history@.len(),
        ensures
            match r {
                Ok(g) => self.can_place(bases@) && g@ == self.placed(collected@, bases@)
                    && g@.nodes.len() == self.snapshot.history@.len(),
                Err(e) => !self.can_place(bases@) && self.place_error(bases@, e),
            },
    {
        let h = &self.snapshot.history;
        let ghost start = collected@;
        let based = if self.selection.limit > 0 {
            collected
        } else {
            match collected.add_merge_base_commits(h, bases) {
                Ok(based) => based,
                Err(e) => {
                    return Err(e);
                },
            }
        };
        proof {
            self.lemma_based_len(start, bases@);
        }
        match self.ancestor {
            Some(root) => based.keep_descendants(h, root),
            None => {
                if self.selection.limit > 0 {
                    Ok(based)
                } else {
                    based.add_root_commits(h, self.snapshot.head)
                }
            },
        }
    }

    proof fn lemma_based_len(&self, g: CollectedView, bases: Seq<usize>)
        requires
            self.bases_readable(bases),
            g.nodes.len() == self.snapshot.history@.len(),
        ensures
            self.based(g, bases).len() == g.nodes.len(),
    {
        if self.selection.limit == 0 {
            lemma_with_nodes_len(self.snapshot.history@, g.nodes, bases);
        }
    }

    /// The condensed graph of the collected refs. `bases` holds the common ancestors of the pairs
    /// of tips, and `readmes` what each commit has in its branch description.
    pub fn condense(
        &self,
        collected: Collected,
        bases: &Vec<usize>,
        readmes: &Vec<Option<String>>,
    ) -> (r: Result<CondensedGraph, GraphError>)
        requires
            collected@.nodes.len() == self.snapshot.history@.len(),
        ensures
            match r {
                Ok(d) => self.can_place(bases@) && d@ == self.condensed(
                    collected@,
                    bases@,
                    readmes@,
                ),
                Err(e) => !self.can_place(bases@) && self.place_error(bases@, e),
            },
    {
        match self.place(collected, bases) {
            Ok(g) => {
                let finished = g.add_branch_readmes(readmes);
                Ok(build_condensed_graph(&self.snapshot.history, finished))
            },
            Err(e) => Err(e),
        }
    }
}

proof fn lemma_with_nodes_len(
    h: Seq<CommitRecord>,
    nodes: Seq<Option<NodeView>>,
    cs: Seq<usize>,
)
    requires
        nodes::all_readable(h, cs),
        nodes.len() == h.len(),
    ensures
        nodes::with_nodes(h, nodes, cs).len() == h.len(),
    decreases cs.len(),
{
    if cs.len() > 0 {
        assert(forall|i: int| 0 <= i < cs.len() - 1 ==> cs.drop_last()[i] == cs[i]);
        lemma_with_nodes_len(h, nodes, cs.drop_last());
        assert(nodes::can_read(h, cs[cs.len() - 1]));
    }
}

/// A graph that is limited to a commit shows that commit, what descends from it, and nothing
/// else: its junctions descend from it too.
pub proof fn law_limited_graph_shows_descendants(
    g: GitGraphviz,
    collected: CollectedView,
    bases: Seq<usize>,
    readmes: Seq<Option<String>>,
    root: usize,
)
    requires
        g.ancestor == Some(root),
        g.can_place(bases),
        collected.nodes.len() == g.snapshot.history@.len(),
    ensures
        g.condensed(collected, bases, readmes).nodes[root as int] is Some,
        forall|c: int|
            0 <= c < g.snapshot.history@.len() && #[trigger] g.condensed(
                collected,
                bases,
                readmes,
            ).nodes[c] is Some ==> c == root || history::descends(
                history::parent_lists(g.snapshot.history@),
                c,
                root as int,
            ),
{
    let h = g.snapshot.history@;
    let ps = history::parent_lists(h);
    g.lemma_based_len(collected, bases);
    let shown = nodes::finished(g.placed(collected, bases), readmes);
    let d = g.condensed(collected, bases, readmes);
    assert forall|c: int| 0 <= c < h.len() && #[trigger] d.nodes[c] is Some implies c == root
        || history::descends(ps, c, root as int) by {
        condensed::lemma_junctions_descend(h, shown, root, c);
    }
    assert(shown[root as int] is Some);
}

/// In a history without cycles no edge leads into the commit that the graph is limited to.
pub proof fn law_no_edge_leads_into_the_root(
    g: GitGraphviz,
    collected: CollectedView,
    bases: Seq<usize>,
    readmes: Seq<Option<String>>,
    root: usize,
)
    requires
        g.ancestor == Some(root),
        g.can_place(bases),
        collected.nodes.len() == g.snapshot.history@.len() <= usize::MAX,
        history::in_range(history::parent_lists(g.snapshot.history@)),
        history::acyclic(history::parent_lists(g.snapshot.history@)),
    ensures
        g.condensed(collected, bases, readmes).parents[root as int].len() == 0,
        forall|i: int|
            0 <= i < condensed::edge_list(g.condensed(collected, bases, readmes).parents).len()
                ==> (#[trigger] condensed::edge_list(
                g.condensed(collected, bases, readmes).parents,
            )[i]).1 != root,
{
    let h = g.snapshot.history@;
    let ps = history::parent_lists(h);
    g.lemma_based_len(collected, bases);
    law_limited_graph_shows_descendants(g, collected, bases, readmes, root);
    let shown = nodes::finished(g.placed(collected, bases), readmes);
    let d = g.condensed(collected, bases, readmes);
    if d.parents[root as int].len() > 0 {
        condensed::law_edges_join_ancestor_and_descendant(h, shown, root as int, 0);
        let p = d.parents[root as int][0] as int;
        assert(d.nodes[p] is Some);
        history::lemma_reaches_cases(ps, root as int, p);
        history::lemma_reaches_cases(ps, p, root as int);
        history::lemma_reaches_transitive(ps, root as int, p, root as int);
    }
    assert forall|i: int| 0 <= i < condensed::edge_list(d.parents).len() implies (
    #[trigger] condensed::edge_list(d.parents)[i]).1 != root by {
        condensed::lemma_edge_list(d.parents, i);
    }
}

/// Whether every node has the hash of its commit.
spec fn ids_match(h: Seq<CommitRecord>, nodes: Seq<Option<NodeView>>) -> bool {
    forall|c: int| 0 <= c < nodes.len() && #[trigger] nodes[c] is Some ==> nodes[c]->0.id == h[c].id@
}

proof fn lemma_with_nodes_ids(
    h: Seq<CommitRecord>,
    nodes: Seq<Option<NodeView>>,
    cs: Seq<usize>,
)
    requires
        nodes::all_readable(h, cs),
        nodes.len() == h.len(),
        ids_match(h, nodes),
    ensures
        ids_match(h, nodes::with_nodes(h, nodes, cs)),
    decreases cs.len(),
{
    if cs.len() > 0 {
        assert(forall|i: int| 0 <= i < cs.len() - 1 ==> cs.drop_last()[i] == cs[i]);
        lemma_with_nodes_ids(h, nodes, cs.drop_last());
        lemma_with_nodes_len(h, nodes, cs.drop_last());
        assert(nodes::can_read(h, cs[cs.len() - 1]));
    }
}

/// Every node has the hash of its commit, and no two nodes have the same hash: each commit is in
/// the graph once.
pub proof fn law_each_commit_is_in_the_graph_once(
    g: GitGraphviz,
    bases: Seq<usize>,
    readmes: Seq<Option<String>>,
    c: int,
    d: int,
)
    requires
        history::distinct_ids(g.snapshot.history@),
        nodes::all_readable(g.snapshot.history@, nodes::targets(g.marks())),
        g.can_place(bases),
        g.snapshot.history@.len() <= usize::MAX,
        0 <= c < g.snapshot.history@.len(),
        0 <= d < g.snapshot.history@.len(),
        c != d,
    ensures
        g.condensed(
            nodes::with_marks(g.snapshot.history@, g.marks()),
            bases,
            readmes,
        ).nodes[c] matches Some(v) ==> v.id == g.snapshot.history@[c].id@ && (g.condensed(
            nodes::with_marks(g.snapshot.history@, g.marks()),
            bases,
            readmes,
        ).nodes[d] matches Some(w) ==> v.id != w.id),
{
    let h = g.snapshot.history@;
    let marks = g.marks();
    let collected = nodes::with_marks(h, marks);
    nodes::law_marks_make_the_nodes(h, marks, c);
    assert forall|x: int| 0 <= x < h.len() && #[trigger] collected.nodes[x] is Some implies
        collected.nodes[x]->0.id == h[x].id@ by {
        nodes::law_marks_make_the_nodes(h, marks, x);
    }
    g.lemma_based_len(collected, bases);
    if g.selection.limit == 0 {
        lemma_with_nodes_ids(h, collected.nodes, bases);
    }
    assert(ids_match(h, g.based(collected, bases)));
    let placed = g.placed(collected, bases).nodes;
    assert(placed[c] is Some ==> placed[c]->0.id == h[c].id@);
    assert(placed[d] is Some ==> placed[d]->0.id == h[d].id@);
    if c < d {
        assert(h[c].id@ != h[d].id@);
    } else {
        assert(h[d].id@ != h[c].id@);
    }
}

/// Whether every ref and every tag of the nodes, but for ROOT, stands on the current branch.
spec fn named_on_branch(s: Snapshot, nodes: Seq<Option<NodeView>>) -> bool {
    forall|c: int|
        0 <= c < nodes.len() && #[trigger] nodes[c] is Some ==> named_at_branch(s, nodes[c]->0, c)
}

/// Whether a node at `c` has no name but ROOT, or `c` is on the current branch.
pub open spec fn named_at_branch(s: Snapshot, v: NodeView, c: int) -> bool {
    (v.tags.len() > 0 || exists|k: int| 0 <= k < v.refs.len() && #[trigger] v.refs[k] != "ROOT"@)
        ==> snapshot::on_current_branch(s, c as usize)
}

proof fn lemma_plain_is_unnamed(s: Snapshot, r: CommitRecord, c: int)
    ensures
        named_at_branch(s, nodes::plain_node(r), c),
{
}

proof fn lemma_root_is_unnamed(s: Snapshot, v: NodeView, c: int)
    requires
        named_at_branch(s, v, c),
    ensures
        named_at_branch(s, nodes::with_ref(v, "ROOT"@), c),
{
    let w = nodes::with_ref(v, "ROOT"@);
    if exists|k: int| 0 <= k < w.refs.len() && #[trigger] w.refs[k] != "ROOT"@ {
        let k = choose|k: int| 0 <= k < w.refs.len() && #[trigger] w.refs[k] != "ROOT"@;
        names::lemma_with_name_holds(v.refs, "ROOT"@, k);
        let j = choose|j: int| 0 <= j < v.refs.len() && v.refs[j] == w.refs[k];
        assert(v.refs[j] != "ROOT"@);
    }
}

proof fn lemma_with_nodes_named(
    s: Snapshot,
    h: Seq<CommitRecord>,
    nodes: Seq<Option<NodeView>>,
    cs: Seq<usize>,
)
    requires
        nodes::all_readable(h, cs),
        nodes.len() == h.len(),
        named_on_branch(s, nodes),
    ensures
        named_on_branch(s, nodes::with_nodes(h, nodes, cs)),
    decreases cs.len(),
{
    if cs.len() > 0 {
        assert(forall|i: int| 0 <= i < cs.len() - 1 ==> cs.drop_last()[i] == cs[i]);
        lemma_with_nodes_named(s, h, nodes, cs.drop_last());
        lemma_with_nodes_len(h, nodes, cs.drop_last());
        assert(nodes::can_read(h, cs[cs.len() - 1]));
        let before = nodes::with_nodes(h, nodes, cs.drop_last());
        let all = nodes::with_nodes(h, nodes, cs);
        assert forall|c: int| 0 <= c < all.len() && #[trigger] all[c] is Some implies named_at_branch(
            s,
            all[c]->0,
            c,
        ) by {
            lemma_plain_is_unnamed(s, h[c], c);
            if before[c] is Some {
                assert(all[c] == before[c]);
            }
        }
    }
}

/// In a graph of the current branch every commit that has a tag, or a ref other than ROOT, is the
/// checked out commit or an ancestor of it.
pub proof fn law_current_branch_graph_names_ancestors(
    g: GitGraphviz,
    bases: Seq<usize>,
    readmes: Seq<Option<String>>,
    c: int,
)
    requires
        g.selection.current_branch_only,
        nodes::all_readable(g.snapshot.history@, nodes::targets(g.marks())),
        g.can_place(bases),
        0 <= c < g.snapshot.history@.len() <= usize::MAX,
    ensures
        g.condensed(
            nodes::with_marks(g.snapshot.history@, g.marks()),
            bases,
            readmes,
        ).nodes[c] matches Some(v) ==> named_at_branch(g.snapshot, v, c),
{
    let s = g.snapshot;
    let h = s.history@;
    let marks = g.marks();
    let collected = nodes::with_marks(h, marks);
    nodes::law_marks_make_the_nodes(h, marks, c);
    assert forall|x: int| 0 <= x < h.len() && #[trigger] collected.nodes[x] is Some implies named_at_branch(
        s,
        collected.nodes[x]->0,
        x,
    ) by {
        nodes::law_marks_make_the_nodes(h, marks, x);
        let i = choose|i: int|
            0 <= i < nodes::targets(marks).len() && nodes::targets(marks)[i] == x as usize;
        snapshot::law_current_branch_shows_ancestors(s, g.selection, i);
    }
    g.lemma_based_len(collected, bases);
    if g.selection.limit == 0 {
        lemma_with_nodes_named(s, h, collected.nodes, bases);
    }
    let based = g.based(collected, bases);
    assert(named_on_branch(s, based));
    lemma_plain_is_unnamed(s, h[c], c);
    lemma_root_is_unnamed(s, nodes::plain_node(h[c]), c);
    if based[c] is Some {
        lemma_root_is_unnamed(s, based[c]->0, c);
    }
    let placed = g.placed(collected, bases).nodes;
    assert(placed[c] is Some ==> named_at_branch(s, placed[c]->0, c));
    let shown = nodes::finished(g.placed(collected, bases), readmes);
    if placed[c] is Some {
        assert(shown[c]->0.refs == placed[c]->0.refs);
        assert(shown[c]->0.tags == placed[c]->0.tags);
    }
}

proof fn lemma_with_nodes_keeps(
    h: Seq<CommitRecord>,
    nodes: Seq<Option<NodeView>>,
    cs: Seq<usize>,
    c: int,
)
    requires
        nodes::all_readable(h, cs),
        nodes.len() == h.len(),
        0 <= c < h.len(),
        nodes[c] is Some,
    ensures
        nodes::with_nodes(h, nodes, cs)[c] == nodes[c],
    decreases cs.len(),
{
    if cs.len() > 0 {
        assert(forall|i: int| 0 <= i < cs.len() - 1 ==> cs.drop_last()[i] == cs[i]);
        lemma_with_nodes_keeps(h, nodes, cs.drop_last(), c);
        lemma_with_nodes_len(h, nodes, cs.drop_last());
        assert(nodes::can_read(h, cs[cs.len() - 1]));
    }
}

/// In a graph that is not limited to a commit, every ref and every tag that is shown stands at
/// the node of its commit.
pub proof fn law_every_ref_is_in_the_graph(
    g: GitGraphviz,
    bases: Seq<usize>,
    readmes: Seq<Option<String>>,
    i: int,
)
    requires
        g.snapshot.history@.len() <= usize::MAX,
        nodes::all_readable(g.snapshot.history@, nodes::targets(g.marks())),
        g.can_place(bases),
        g.ancestor is None,
        0 <= i < g.marks().len(),
    ensures
        g.condensed(
            nodes::with_marks(g.snapshot.history@, g.marks()),
            bases,
            readmes,
        ).nodes[g.marks()[i].target as int] matches Some(v) && match g.marks()[i].kind {
            snapshot::MarkKind::Ref | snapshot::MarkKind::Stash => v.refs.contains(g.marks()[i].name),
            snapshot::MarkKind::Tag => v.tags.contains(g.marks()[i].name),
            snapshot::MarkKind::Checkout => true,
        },
{
    let h = g.snapshot.history@;
    let marks = g.marks();
    let m = marks[i];
    let c = m.target as int;
    let collected = nodes::with_marks(h, marks);
    assert(nodes::targets(marks)[i] == m.target);
    nodes::law_marks_make_the_nodes(h, marks, c);
    assert(nodes::targets(marks).contains(m.target));
    let v = collected.nodes[c]->0;
    match m.kind {
        snapshot::MarkKind::Ref | snapshot::MarkKind::Stash => {
            assert(nodes::gives_ref()(m.kind));
            assert(nodes::marked(marks, c, m.name, nodes::gives_ref()));
            assert(v.refs.contains(m.name));
        },
        snapshot::MarkKind::Tag => {
            assert(nodes::gives_tag()(m.kind));
            assert(nodes::marked(marks, c, m.name, nodes::gives_tag()));
            assert(v.tags.contains(m.name));
        },
        snapshot::MarkKind::Checkout => {},
    }
    if g.selection.limit == 0 {
        lemma_with_nodes_keeps(h, collected.nodes, bases, c);
        lemma_with_nodes_len(h, collected.nodes, bases);
        names::lemma_with_name(v.refs, "ROOT"@);
    }
}

// ---------------------------------------------------------------------------------------------
// The DOT file
// ---------------------------------------------------------------------------------------------

/// What is checked out: a branch, with its name where that is text, or a commit.
#[derive(Debug)]
pub enum HeadName {
    Branch(Option<String>),
    Detached,
}

/// The checked out commit.
#[derive(Debug)]
pub struct HeadCommit {
    pub id: String,
    pub summary: String,
    pub author: String,
    pub seconds: i64,
}

/// What is checked out.
#[derive(Debug)]
pub struct HeadInfo {
    pub name: HeadName,
    /// The commit, where it can be read.
    pub commit: Option<HeadCommit>,
}

/// What the tooltip of the whole graph tells.
#[derive(Debug)]
pub struct RepoInfo {
    pub name: String,
    pub head: Option<HeadInfo>,
}

/// The name of what is checked out.
pub open spec fn head_text(name: HeadName) -> Seq<char> {
    match name {
        HeadName::Branch(Some(s)) => s@,
        HeadName::Branch(None) => "unknown"@,
        HeadName::Detached => "detached HEAD"@,
    }
}

/// The lines of the graph's tooltip: repository, branch, commit, author and date.
pub open spec fn about_lines(info: RepoInfo, now: i64) -> Seq<Seq<char>> {
    let first = seq!["Repository: "@ + info.name@];
    match info.head {
        Some(head) => {
            let with_branch = first.push("Branch: "@ + head_text(head.name));
            match head.commit {
                Some(c) => with_branch.push(
                    "Commit:  "@ + text::first_chars(c.id@, 7) + " "@ + lines::trim(c.summary@),
                ).push("Author:  "@ + c.author@).push("Date:    "@ + utils::age_text(now.wrapping_sub(c.seconds) as int)),
                None => with_branch,
            }
        },
        None => first,
    }
}

/// The tooltip of the whole graph.
pub fn build_graph_tooltip(info: &RepoInfo, now: i64) -> (r: String)
    ensures
        r@ == search::join(about_lines(*info, now), "\n"@),
{
    let mut out: Vec<String> = Vec::new();
    let mut line = "Repository: ".to_owned();
    line.append(info.name.as_str());
    let ghost a = line@;
    out.push(line);
    assert(text::views(out@) =~= seq![a]);
    match &info.head {
        Some(head) => {
            let mut line = "Branch: ".to_owned();
            match &head.name {
                HeadName::Branch(Some(s)) => {
                    line.append(s.as_str());
                },
                HeadName::Branch(None) => {
                    line.append("unknown");
                },
                HeadName::Detached => {
                    line.append("detached HEAD");
                },
            }
            let ghost b = line@;
            out.push(line);
            assert(text::views(out@) =~= seq![a].push(b));
            match &head.commit {
                Some(c) => {
                    let mut line = "Commit:  ".to_owned();
                    let short = take_chars(c.id.as_str(), 7);
                    line.append(short.as_str());
                    line.append(" ");
                    let summary = trimmed(c.summary.as_str());
                    line.append(summary.as_str());
                    let ghost x = line@;
                    out.push(line);
                    let mut line = "Author:  ".to_owned();
                    line.append(c.author.as_str());
                    let ghost z = line@;
                    out.push(line);
                    let mut line = "Date:    ".to_owned();
                    let when = time_ago_at(now, c.seconds);
                    line.append(when.as_str());
                    let ghost y = line@;
                    out.push(line);
                    assert(text::views(out@) =~= seq![a].push(b).push(x).push(z).push(y));
                },
                None => {},
            }
        },
        None => {},
    }
    assert(text::views(out@) =~= about_lines(*info, now));
    joined(&out, "\n")
}

/// How edges are drawn: `auto` stands for straight segments where there are many of them, and for
/// right angles otherwise.
pub open spec fn splines_mode(arg: Seq<char>, edge_count: nat) -> Seq<char> {
    if arg == "auto"@ {
        if edge_count > 1200 {
            "polyline"@
        } else {
            "ortho"@
        }
    } else {
        arg
    }
}

/// How edges are drawn.
pub fn choose_splines(arg: &str, edge_count: usize) -> (r: String)
    ensures
        r@ == splines_mode(arg@, edge_count as nat),
{
    if same_text(arg, "auto") {
        if edge_count > 1200 {
            "polyline".to_owned()
        } else {
            "ortho".to_owned()
        }
    } else {
        arg.to_owned()
    }
}

/// The first lines of a DOT file.
pub open spec fn dot_header(theme: Theme, splines: Seq<char>, about: Seq<char>) -> Seq<char> {
    let tc = theme::theme_colors(theme);
    "digraph git {\n  rankdir=BT;\n  bgcolor=\""@ + tc.bg@
        + "\";\n  node [fontname=\"Arial\", fontsize=9, fontcolor=\""@ + tc.node_default_font@
        + "\", fillcolor=\""@ + tc.node_default_fill@ + "\", color=\""@ + tc.node_default_border@
        + "\", style=filled];\n  edge [color=\""@ + tc.edge_color@
        + "\", arrowhead=none, dir=none, fontsize=8, fontname=\"Arial\", fontcolor=\"#94A3B8\"];\n  graph [splines="@
        + splines
        + ", nodesep=0.4, ranksep=0.5, pad=\"0.5,0.5\", mclimit=5.0, tooltip=\""@
        + escape::tooltip_escaped(about) + "\"];\n"@
}

/// Writes the first lines of a DOT file.
fn write_header(theme: Theme, splines: &str, about: &str) -> (r: String)
    ensures
        r@ == dot_header(theme, splines@, about@),
{
    let tc = theme.colors();
    let mut out = "digraph git {\n  rankdir=BT;\n  bgcolor=\"".to_owned();
    out.append(tc.bg);
    out.append("\";\n  node [fontname=\"Arial\", fontsize=9, fontcolor=\"");
    out.append(tc.node_default_font);
    out.append("\", fillcolor=\"");
    out.append(tc.node_default_fill);
    out.append("\", color=\"");
    out.append(tc.node_default_border);
    out.append("\", style=filled];\n  edge [color=\"");
    out.append(tc.edge_color);
    out.append(
        "\", arrowhead=none, dir=none, fontsize=8, fontname=\"Arial\", fontcolor=\"#94A3B8\"];\n  graph [splines=",
    );
    out.append(splines);
    out.append(", nodesep=0.4, ranksep=0.5, pad=\"0.5,0.5\", mclimit=5.0, tooltip=\"");
    let escaped = tooltip_escape(about);
    out.append(escaped.as_str());
    out.append("\"];\n");
    out
}

/// The lines of the nodes.
pub open spec fn node_lines(nodes: Seq<Option<NodeView>>, theme: Theme) -> Seq<char>
    decreases nodes.len(),
{
    if nodes.len() == 0 {
        seq![]
    } else {
        node_lines(nodes.drop_last(), theme) + match nodes.last() {
            Some(v) => "  "@ + commit_node::dot_node(v, theme) + "\n"@,
            None => seq![],
        }
    }
}

/// The page of the forge that compares two commits. GitHub is given hashes, others the best
/// names.
pub open spec fn compare_url(base: Seq<char>, from: NodeView, to: NodeView) -> Seq<char> {
    if search::contains_text(base, "github.com"@) {
        base + "/compare/"@ + encoded(from.id) + "..."@ + encoded(to.id)
    } else {
        base + "/-/compare/"@ + encoded(commit_node::best_ref(from)) + "..."@ + encoded(
            commit_node::best_ref(to),
        )
    }
}

/// A ref name as it stands in a URL.
pub open spec fn encoded(r: Seq<char>) -> Seq<char> {
    percent::url_encoded(vstd::utf8::encode_utf8(r))
}

/// The page of the forge that compares two commits.
fn write_compare_url(base: &str, from: &CommitNode, to: &CommitNode) -> (r: String)
    ensures
        r@ == compare_url(base@, from@, to@),
{
    let mut out = base.to_owned();
    if has_text(base, "github.com") {
        out.append("/compare/");
        let a = url_encode_ref(from.hash());
        out.append(a.as_str());
        out.append("...");
        let b = url_encode_ref(to.hash());
        out.append(b.as_str());
    } else {
        out.append("/-/compare/");
        let from_ref = from.best_ref_for_url();
        let a = url_encode_ref(from_ref.as_str());
        out.append(a.as_str());
        out.append("...");
        let to_ref = to.best_ref_for_url();
        let b = url_encode_ref(to_ref.as_str());
        out.append(b.as_str());
    }
    out
}

/// Whether the edge at place `i` has a record. One that leads to the commit to which the graph is
/// limited has none.
pub open spec fn recorded(
    ancestor: Option<usize>,
    edges: Seq<(usize, usize)>,
    records: Seq<EdgeRecord>,
    i: int,
) -> bool {
    0 <= i < records.len() && i < edges.len() && ancestor != Some(edges[i].1)
}

/// The largest number of files that change along one edge, and at least 1.
pub open spec fn most_files(
    ancestor: Option<usize>,
    edges: Seq<(usize, usize)>,
    records: Seq<EdgeRecord>,
    n: nat,
) -> nat
    decreases n,
{
    if n == 0 {
        1
    } else {
        let before = most_files(ancestor, edges, records, (n - 1) as nat);
        if recorded(ancestor, edges, records, n - 1) && records[n - 1].files@.len() > before {
            records[n - 1].files@.len()
        } else {
            before
        }
    }
}

/// How many commits of an edge its tooltip names.
pub const TOOLTIP_COMMITS: usize = 20;

/// The attributes of an edge that has a record.
pub open spec fn record_attrs(
    base: Option<Seq<char>>,
    from: NodeView,
    to: NodeView,
    r: EdgeRecord,
    max_files: nat,
    now: i64,
) -> Seq<char> {
    edge::edge_attrs(
        match base {
            Some(b) => Some(compare_url(b, from, to)),
            None => None,
        },
        edge::tooltip_text(edge::path_lines(r.steps@, TOOLTIP_COMMITS as nat, now)),
        edge::path_total(r.steps@),
        edge::file_list(text::views(r.files@)),
        edge::edge_width(r.lines as nat, r.width),
        edge::heat_color(r.files@.len(), max_files, r.heat),
    )
}

/// The attributes of an edge that has no record.
pub open spec fn bare_attrs() -> Seq<char> {
    edge::edge_attrs(None, None, 0, None, 10, "#B0B0B0"@)
}

/// The line of an edge.
pub open spec fn edge_line(
    g: GitGraphviz,
    nodes: Seq<Option<NodeView>>,
    edges: Seq<(usize, usize)>,
    records: Seq<EdgeRecord>,
    max_files: nat,
    now: i64,
    i: int,
) -> Seq<char> {
    let from = nodes[edges[i].0 as int]->0;
    let to = nodes[edges[i].1 as int]->0;
    "  \""@ + from.id + "\" -> \""@ + to.id + "\""@ + (if recorded(
        g.ancestor,
        edges,
        records,
        i,
    ) {
        record_attrs(
            text::opt_view(g.gitlab_base_url),
            from,
            to,
            records[i],
            max_files,
            now,
        )
    } else {
        bare_attrs()
    }) + "\n"@
}

/// The lines of the first `n` edges.
pub open spec fn edge_lines(
    g: GitGraphviz,
    nodes: Seq<Option<NodeView>>,
    edges: Seq<(usize, usize)>,
    records: Seq<EdgeRecord>,
    max_files: nat,
    now: i64,
    n: nat,
) -> Seq<char>
    decreases n,
{
    if n == 0 {
        seq![]
    } else {
        edge_lines(g, nodes, edges, records, max_files, now, (n - 1) as nat) + edge_line(
            g,
            nodes,
            edges,
            records,
            max_files,
            now,
            n - 1,
        )
    }
}

/// The DOT file of a graph, at the time `now`. `records` holds what each edge stands for, in the
/// order of the edges.
pub open spec fn dot_text(
    g: GitGraphviz,
    d: CondensedView,
    records: Seq<EdgeRecord>,
    info: RepoInfo,
    splines: Seq<char>,
    now: i64,
) -> Seq<char> {
    let edges = condensed::edge_list(d.parents);
    let max_files = most_files(g.ancestor, edges, records, records.len());
    dot_header(
        g.theme,
        splines_mode(splines, edges.len()),
        search::join(about_lines(info, now), "\n"@),
    ) + node_lines(d.nodes, g.theme) + edge_lines(
        g,
        d.nodes,
        edges,
        records,
        max_files,
        now,
        edges.len(),
    ) + "}\n"@
}

impl GitGraphviz {
    /// The largest number of files that change along one edge, and at least 1.
    pub fn max_file_count(&self, graph: &CondensedGraph, records: &Vec<EdgeRecord>) -> (r: usize)
        ensures
            r == most_files(
                self.ancestor,
                condensed::edge_list(graph@.parents),
                records@,
                records@.len(),
            ),
    {
        let edges = graph.edges();
        let mut most: usize = 1;
        let mut i: usize = 0;
        while i < records.len()
            invariant
                edges@ == condensed::edge_list(graph@.parents),
                i <= records@.len(),
                most == most_files(self.ancestor, edges@, records@, i as nat),
            decreases records@.len() - i,
        {
            if self.has_record(&edges, records.len(), i) {
                let n = records[i].files.len();
                if n > most {
                    most = n;
                }
            }
            i = i + 1;
        }
        most
    }

    /// Whether the edge at place `i` has a record, where there are `n` records.
    fn has_record(&self, edges: &Vec<(usize, usize)>, n: usize, i: usize) -> (r: bool)
        ensures
            r == (i < n && i < edges@.len() && self.ancestor != Some(edges@[i as int].1)),
    {
        if i < n && i < edges.len() {
            match self.ancestor {
                Some(root) => root != edges[i].1,
                None => true,
            }
        } else {
            false
        }
    }

    /// The attributes of an edge that has a record.
    fn write_record_attrs(
        &self,
        from: &CommitNode,
        to: &CommitNode,
        record: &EdgeRecord,
        max_files: usize,
        now: i64,
    ) -> (r: String)
        ensures
            r@ == record_attrs(
                text::opt_view(self.gitlab_base_url),
                from@,
                to@,
                *record,
                max_files as nat,
                now,
            ),
    {
        let url = match &self.gitlab_base_url {
            Some(base) => Some(write_compare_url(base.as_str(), from, to)),
            None => None,
        };
        let (path, count) = collect_path_commits_with_count(&record.steps, TOOLTIP_COMMITS, now);
        let tooltip = build_tooltip(&path);
        let files = list_files(&record.files);
        let width = edge_penwidth(record.lines, record.width);
        let color = edge_heatmap_color(record.files.len(), max_files, record.heat);
        build_edge_attrs(
            as_str(&url),
            as_str(&tooltip),
            count,
            as_str(&files),
            width,
            color.as_str(),
        )
    }

    /// Appends the lines of the nodes.
    fn write_nodes(&self, graph: &CondensedGraph, out: &mut String)
        ensures
            final(out)@ == old(out)@ + node_lines(graph@.nodes, self.theme),
    {
        let ghost start = out@;
        let ghost views = graph@.nodes;
        let n = graph.len();
        let mut i: usize = 0;
        assert(views.take(0) =~= seq![]);
        assert(start + node_lines(views.take(0), self.theme) =~= start);
        while i < n
            invariant
                n == graph@.nodes.len(),
                views == graph@.nodes,
                i <= n,
                out@ == start + node_lines(views.take(i as int), self.theme),
            decreases n - i,
        {
            let ghost before = node_lines(views.take(i as int), self.theme);
            assert(views.take(i + 1).drop_last() =~= views.take(i as int));
            assert(views.take(i + 1).last() == views[i as int]);
            match graph.node(i) {
                Some(node) => {
                    let line = node.get_dot_node(self.theme);
                    out.append("  ");
                    out.append(line.as_str());
                    out.append("\n");
                    assert(out@ =~= start + (before + ("  "@ + line@ + "\n"@)));
                },
                None => {
                    assert(out@ =~= start + (before + Seq::<char>::empty()));
                },
            }
            i = i + 1;
        }
        assert(views.take(i as int) =~= views);
    }

    /// Appends the lines of the edges.
    fn write_edges(
        &self,
        graph: &CondensedGraph,
        edges: &Vec<(usize, usize)>,
        records: &Vec<EdgeRecord>,
        max_files: usize,
        now: i64,
        out: &mut String,
    )
        requires
            forall|i: int|
                #![trigger edges@[i]]
                0 <= i < edges@.len() ==> edges@[i].0 < graph@.nodes.len()
                    && graph@.nodes[edges@[i].0 as int] is Some && edges@[i].1 < graph@.nodes.len()
                    && graph@.nodes[edges@[i].1 as int] is Some,
        ensures
            final(out)@ == old(out)@ + edge_lines(
                *self,
                graph@.nodes,
                edges@,
                records@,
                max_files as nat,
                now,
                edges@.len(),
            ),
    {
        let ghost start = out@;
        let ghost views = graph@.nodes;
        let mut i: usize = 0;
        assert(out@ =~= start + edge_lines(
            *self,
            views,
            edges@,
            records@,
            max_files as nat,
            now,
            0,
        ));
        while i < edges.len()
            invariant
                views == graph@.nodes,
                forall|i: int|
                    #![trigger edges@[i]]
                    0 <= i < edges@.len() ==> edges@[i].0 < graph@.nodes.len()
                        && graph@.nodes[edges@[i].0 as int] is Some && edges@[i].1
                        < graph@.nodes.len() && graph@.nodes[edges@[i].1 as int] is Some,
                i <= edges@.len(),
                out@ == start + edge_lines(
                    *self,
                    views,
                    edges@,
                    records@,
                    max_files as nat,
                    now,
                    i as nat,
                ),
            decreases edges@.len() - i,
        {
            let (p, c) = edges[i];
            let from = graph.node(p).unwrap();
            let to = graph.node(c).unwrap();
            let attrs = if self.has_record(edges, records.len(), i) {
                self.write_record_attrs(from, to, &records[i], max_files, now)
            } else {
                build_edge_attrs(None, None, 0, None, 10, "#B0B0B0")
            };
            let mut line = "  \"".to_owned();
            line.append(from.hash());
            line.append("\" -> \"");
            line.append(to.hash());
            line.append("\"");
            line.append(attrs.as_str());
            line.append("\n");
            assert(line@ == edge_line(
                *self,
                views,
                edges@,
                records@,
                max_files as nat,
                now,
                i as int,
            ));
            out.append(line.as_str());
            assert(out@ =~= start + (edge_lines(
                *self,
                views,
                edges@,
                records@,
                max_files as nat,
                now,
                i as nat,
            ) + line@));
            i = i + 1;
        }
    }

    /// The DOT file of a graph, at the time `now`. `records` holds what each edge stands for, in
    /// the order of the edges.
    pub fn generate_dot_at(
        &self,
        graph: &CondensedGraph,
        records: &Vec<EdgeRecord>,
        info: &RepoInfo,
        splines_arg: &str,
        now: i64,
    ) -> (r: String)
        ensures
            r@ == dot_text(*self, graph@, records@, *info, splines_arg@, now),
    {
        let edges = graph.edges();
        let max_files = self.max_file_count(graph, records);
        let splines = choose_splines(splines_arg, edges.len());
        let about = build_graph_tooltip(info, now);
        let mut out = write_header(self.theme, splines.as_str(), about.as_str());
        self.write_nodes(graph, &mut out);
        self.write_edges(graph, &edges, records, max_files, now, &mut out);
        out.append("}\n");
        out
    }

    /// The DOT file of a graph. Ages are counted up to the time of the call.
    pub fn generate_dot(
        &self,
        graph: &CondensedGraph,
        records: &Vec<EdgeRecord>,
        info: &RepoInfo,
        splines_arg: &str,
    ) -> (r: String)
        ensures
            exists|now: i64|
                r@ == #[trigger] dot_text(*self, graph@, records@, *info, splines_arg@, now),
    {
        let now = unix_seconds();
        let r = self.generate_dot_at(graph, records, info, splines_arg, now);
        assert(r@ == dot_text(*self, graph@, records@, *info, splines_arg@, now));
        r
    }
}

/// The text of an optional string.
fn as_str(o: &Option<String>) -> (r: Option<&str>)
    ensures
        text::opt_str_view(r) == text::opt_view(*o),
{
    match o {
        Some(s) => Some(s.as_str()),
        None => None,
    }
}

} // verus!
