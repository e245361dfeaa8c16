//! What the DOT file of a graph shows: every node, every edge, and every name of a commit.

use vstd::prelude::*;

use crate::commit_node;
use crate::commit_node::NodeView;
use crate::condensed;
use crate::condensed::CondensedView;
use crate::edge;
use crate::edge::EdgeRecord;
use crate::escape;
use crate::graph;
use crate::graph::{GitGraphviz, RepoInfo};
use crate::names;
use crate::nodes;
use crate::number;
use crate::search;
use crate::text;
use crate::theme;
use crate::theme::Theme;

verus! {

/// Whether `part` stands somewhere in `whole`.
pub open spec fn holds(whole: Seq<char>, part: Seq<char>) -> bool {
    exists|before: Seq<char>, after: Seq<char>| whole == #[trigger] (before + part + after)
}

proof fn lemma_holds_in(a: Seq<char>, whole: Seq<char>, b: Seq<char>, part: Seq<char>)
    requires
        holds(whole, part),
    ensures
        holds(a + whole + b, part),
{
    let (before, after) = choose|before: Seq<char>, after: Seq<char>|
        whole == #[trigger] (before + part + after);
    assert(a + whole + b =~= (a + before) + part + (after + b));
}

proof fn lemma_holds_start(part: Seq<char>, b: Seq<char>)
    ensures
        holds(part + b, part),
{
    assert(part + b =~= Seq::<char>::empty() + part + b);
}

// ---------------------------------------------------------------------------------------------
// Nodes and edges
// ---------------------------------------------------------------------------------------------

proof fn lemma_node_lines(nodes: Seq<Option<NodeView>>, theme: Theme, c: int)
    requires
        0 <= c < nodes.len(),
        nodes[c] is Some,
    ensures
        holds(
            graph::node_lines(nodes, theme),
            "  "@ + commit_node::dot_node(nodes[c]->0, theme) + "\n"@,
        ),
    decreases nodes.len(),
{
    let rest = nodes.drop_last();
    let before = graph::node_lines(rest, theme);
    let part = "  "@ + commit_node::dot_node(nodes[c]->0, theme) + "\n"@;
    let none = Seq::<char>::empty();
    if c < rest.len() {
        assert(rest[c] == nodes[c]);
        lemma_node_lines(rest, theme, c);
        let last = match nodes.last() {
            Some(v) => "  "@ + commit_node::dot_node(v, theme) + "\n"@,
            None => seq![],
        };
        lemma_holds_in(none, before, last, part);
        assert(none + before + last =~= graph::node_lines(nodes, theme));
    } else {
        assert(graph::node_lines(nodes, theme) =~= before + part + none);
    }
}

proof fn lemma_edge_lines(
    g: GitGraphviz,
    nodes: Seq<Option<NodeView>>,
    edges: Seq<(usize, usize)>,
    records: Seq<EdgeRecord>,
    max_files: nat,
    now: i64,
    n: nat,
    i: int,
)
    requires
        0 <= i < n,
    ensures
        holds(
            graph::edge_lines(g, nodes, edges, records, max_files, now, n),
            graph::edge_line(g, nodes, edges, records, max_files, now, i),
        ),
    decreases n,
{
    let m = (n - 1) as nat;
    let before = graph::edge_lines(g, nodes, edges, records, max_files, now, m);
    let last = graph::edge_line(g, nodes, edges, records, max_files, now, n - 1);
    let part = graph::edge_line(g, nodes, edges, records, max_files, now, i);
    let none = Seq::<char>::empty();
    if i < n - 1 {
        lemma_edge_lines(g, nodes, edges, records, max_files, now, m, i);
        lemma_holds_in(none, before, last, part);
        assert(none + before + last =~= before + last);
    } else {
        assert(before + last =~= before + part + none);
    }
}

proof fn lemma_dot_parts(
    g: GitGraphviz,
    d: CondensedView,
    records: Seq<EdgeRecord>,
    info: RepoInfo,
    splines: Seq<char>,
    now: i64,
    part: Seq<char>,
)
    ensures
        holds(graph::node_lines(d.nodes, g.theme), part) || holds(
            graph::edge_lines(
                g,
                d.nodes,
                condensed::edge_list(d.parents),
                records,
                graph::most_files(
                    g.ancestor,
                    condensed::edge_list(d.parents),
                    records,
                    records.len(),
                ),
                now,
                condensed::edge_list(d.parents).len(),
            ),
            part,
        ) ==> holds(graph::dot_text(g, d, records, info, splines, now), part),
{
    let edges = condensed::edge_list(d.parents);
    let most = graph::most_files(g.ancestor, edges, records, records.len());
    let head = graph::dot_header(
        g.theme,
        graph::splines_mode(splines, edges.len()),
        search::join(graph::about_lines(info, now), "\n"@),
    );
    let a = graph::node_lines(d.nodes, g.theme);
    let b = graph::edge_lines(g, d.nodes, edges, records, most, now, edges.len());
    let whole = head + a + b + "}\n"@;
    assert(whole == graph::dot_text(g, d, records, info, splines, now));
    if holds(a, part) {
        lemma_holds_in(head, a, b + "}\n"@, part);
        assert(whole =~= head + a + (b + "}\n"@));
    } else if holds(b, part) {
        lemma_holds_in(head + a, b, "}\n"@, part);
    }
}

/// Every commit of the graph has its line in the DOT file.
pub proof fn law_every_commit_is_drawn(
    g: GitGraphviz,
    d: CondensedView,
    records: Seq<EdgeRecord>,
    info: RepoInfo,
    splines: Seq<char>,
    now: i64,
    c: int,
)
    requires
        0 <= c < d.nodes.len(),
        d.nodes[c] is Some,
    ensures
        holds(
            graph::dot_text(g, d, records, info, splines, now),
            "  "@ + commit_node::dot_node(d.nodes[c]->0, g.theme) + "\n"@,
        ),
{
    let part = "  "@ + commit_node::dot_node(d.nodes[c]->0, g.theme) + "\n"@;
    lemma_node_lines(d.nodes, g.theme, c);
    lemma_dot_parts(g, d, records, info, splines, now, part);
}

/// Every edge of the graph has its line in the DOT file, from the parent to the child. The record at
/// the place of the edge, if there is one, tells what the edge stands for, unless it leads to the
/// commit to which the graph is limited.
pub proof fn law_every_edge_is_drawn(
    g: GitGraphviz,
    d: CondensedView,
    records: Seq<EdgeRecord>,
    info: RepoInfo,
    splines: Seq<char>,
    now: i64,
    i: int,
)
    requires
        0 <= i < condensed::edge_list(d.parents).len(),
    ensures
        ({
            let e = condensed::edge_list(d.parents)[i];
            let from = d.nodes[e.0 as int]->0;
            let to = d.nodes[e.1 as int]->0;
            let arrow = "  \""@ + from.id + "\" -> \""@ + to.id + "\""@;
            let dot = graph::dot_text(g, d, records, info, splines, now);
            &&& holds(dot, arrow)
            &&& i < records.len() && g.ancestor != Some(e.1) ==> holds(
                dot,
                arrow + graph::record_attrs(
                    text::opt_view(g.gitlab_base_url),
                    from,
                    to,
                    records[i],
                    graph::most_files(
                        g.ancestor,
                        condensed::edge_list(d.parents),
                        records,
                        records.len(),
                    ),
                    now,
                ) + "\n"@,
            )
            &&& !(i < records.len() && g.ancestor != Some(e.1)) ==> holds(
                dot,
                arrow + graph::bare_attrs() + "\n"@,
            )
        }),
{
    let edges = condensed::edge_list(d.parents);
    let e = edges[i];
    let from = d.nodes[e.0 as int]->0;
    let to = d.nodes[e.1 as int]->0;
    let arrow = "  \""@ + from.id + "\" -> \""@ + to.id + "\""@;
    let most = graph::most_files(g.ancestor, edges, records, records.len());
    let line = graph::edge_line(g, d.nodes, edges, records, most, now, i);
    let all = graph::edge_lines(g, d.nodes, edges, records, most, now, edges.len());
    let dot = graph::dot_text(g, d, records, info, splines, now);
    lemma_edge_lines(g, d.nodes, edges, records, most, now, edges.len(), i);
    lemma_dot_parts(g, d, records, info, splines, now, line);
    assert(holds(dot, line));
    let attrs = if graph::recorded(g.ancestor, edges, records, i) {
        graph::record_attrs(
            text::opt_view(g.gitlab_base_url),
            from,
            to,
            records[i],
            most,
            now,
        )
    } else {
        graph::bare_attrs()
    };
    assert(line == arrow + attrs + "\n"@);
    let (before, after) = choose|before: Seq<char>, after: Seq<char>|
        dot == #[trigger] (before + line + after);
    assert(dot =~= before + arrow + (attrs + "\n"@ + after));
}

/// Each parent of each commit makes one edge, from the parent to the commit: the edges are listed
/// commit by commit.
pub proof fn law_every_parent_is_an_edge(parents: Seq<Seq<usize>>, c: int, k: int)
    requires
        parents.len() <= usize::MAX,
        0 <= c < parents.len(),
        0 <= k < parents[c].len(),
    ensures
        ({
            let i = condensed::edge_list(parents.take(c)).len() + k;
            &&& i < condensed::edge_list(parents).len()
            &&& condensed::edge_list(parents)[i] == (parents[c][k], c as usize)
        }),
    decreases parents.len(),
{
    let rest = parents.drop_last();
    let before = condensed::edge_list(rest);
    let i = condensed::edge_list(parents.take(c)).len() + k;
    if c < rest.len() {
        assert(rest[c] == parents[c]);
        assert(rest.take(c) =~= parents.take(c));
        law_every_parent_is_an_edge(rest, c, k);
        assert(condensed::edge_list(parents)[i] == before[i]);
    } else {
        assert(parents.take(c) =~= rest);
        let last = nodes::ends_with(parents.last(), (parents.len() - 1) as usize);
        assert(condensed::edge_list(parents)[i] == last[k]);
    }
}

/// The largest number of files is that of some edge which has a record, and no such edge has more.
/// Where none has a file, it is one.
pub proof fn law_most_files_is_the_largest(
    ancestor: Option<usize>,
    edges: Seq<(usize, usize)>,
    records: Seq<EdgeRecord>,
    n: nat,
)
    requires
        n <= records.len(),
    ensures
        forall|i: int|
            0 <= i < n && i < edges.len() && ancestor != Some(edges[i].1) ==> (
            #[trigger] records[i]).files@.len() <= graph::most_files(ancestor, edges, records, n),
        graph::most_files(ancestor, edges, records, n) == 1 || exists|i: int|
            0 <= i < n && i < edges.len() && ancestor != Some(edges[i].1) && (
            #[trigger] records[i]).files@.len() == graph::most_files(ancestor, edges, records, n),
        graph::most_files(ancestor, edges, records, n) >= 1,
    decreases n,
{
    if n > 0 {
        law_most_files_is_the_largest(ancestor, edges, records, (n - 1) as nat);
        let before = graph::most_files(ancestor, edges, records, (n - 1) as nat);
        if graph::recorded(ancestor, edges, records, n - 1) && records[n - 1].files@.len() > before {
            assert(records[n - 1].files@.len() == graph::most_files(ancestor, edges, records, n));
        } else if before != 1 {
            let i = choose|i: int|
                0 <= i < n - 1 && i < edges.len() && ancestor != Some(edges[i].1) && (
                #[trigger] records[i]).files@.len() == before;
            assert(records[i].files@.len() == graph::most_files(ancestor, edges, records, n));
        }
    }
}

// ---------------------------------------------------------------------------------------------
// What an edge tells
// ---------------------------------------------------------------------------------------------

/// A joined text holds each of its parts.
pub proof fn lemma_join_holds(parts: Seq<Seq<char>>, sep: Seq<char>, i: int)
    requires
        0 <= i < parts.len(),
    ensures
        holds(search::join(parts, sep), parts[i]),
    decreases parts.len(),
{
    let none = Seq::<char>::empty();
    if parts.len() == 1 {
        lemma_holds_start(parts[0], none);
        assert(parts[0] + none =~= parts[0]);
    } else {
        let rest = parts.drop_last();
        let before = search::join(rest, sep);
        let whole = search::join(parts, sep);
        if i < rest.len() {
            assert(rest[i] == parts[i]);
            lemma_join_holds(rest, sep, i);
            lemma_holds_in(none, before, sep + parts.last(), parts[i]);
            assert(whole =~= none + before + (sep + parts.last()));
        } else {
            assert(whole =~= (before + sep) + parts[i] + none);
        }
    }
}

/// The parts of a list that are not empty are kept.
pub proof fn lemma_filled_keeps(parts: Seq<Seq<char>>, i: int)
    requires
        0 <= i < parts.len(),
        parts[i].len() > 0,
    ensures
        text::filled(parts).contains(parts[i]),
    decreases parts.len(),
{
    let rest = parts.drop_last();
    let before = text::filled(rest);
    let all = text::filled(parts);
    if i < rest.len() {
        assert(rest[i] == parts[i]);
        lemma_filled_keeps(rest, i);
        let k = choose|k: int| 0 <= k < before.len() && before[k] == parts[i];
        assert(all[k] == before[k]);
    } else {
        assert(all =~= before.push(parts[i]));
        assert(all[before.len() as int] == parts[i]);
    }
}

proof fn lemma_attrs_hold(parts: Seq<Seq<char>>, i: int)
    requires
        0 <= i < parts.len(),
        parts[i].len() > 0,
    ensures
        holds(" ["@ + search::join(text::filled(parts), ", "@) + "]"@, parts[i]),
{
    lemma_filled_keeps(parts, i);
    let list = text::filled(parts);
    let k = choose|k: int| 0 <= k < list.len() && list[k] == parts[i];
    lemma_join_holds(list, ", "@, k);
    lemma_holds_in(" ["@, search::join(list, ", "@), "]"@, parts[i]);
}

/// An edge with a record names the newest twenty commits on its way, and how many they are, lists
/// the files that changed, and leads to the page of the forge that compares its ends, the parent
/// before the child.
pub proof fn law_edge_tells_its_record(
    base: Option<Seq<char>>,
    from: NodeView,
    to: NodeView,
    r: EdgeRecord,
    max_files: nat,
    now: i64,
)
    ensures
        ({
            let attrs = graph::record_attrs(base, from, to, r, max_files, now);
            &&& base matches Some(b) ==> holds(
                attrs,
                "URL=\""@ + graph::compare_url(b, from, to) + "\", target=\"_blank\""@,
            )
            &&& edge::path_lines(r.steps@, 20, now).len() > 0 ==> holds(
                attrs,
                "tooltip=\""@ + escape::tooltip_escaped(
                    search::join(
                        edge::tooltip_lines(edge::path_lines(r.steps@, 20, now)),
                        "\n"@,
                    ),
                ) + "\""@,
            )
            &&& edge::path_total(r.steps@) > 0 ==> holds(
                attrs,
                "xlabel=\""@ + number::decimal(edge::path_total(r.steps@)) + "\""@,
            )
            &&& edge::file_list(text::views(r.files@)) matches Some(list) ==> holds(
                attrs,
                "id=\"files:"@ + escape::dot_escaped(list) + "\""@,
            )
            &&& r.files@.len() == 0 ==> holds(attrs, "color=\"#B0B0B0\""@)
            &&& r.files@.len() > 0 && max_files > 0 ==> holds(
                attrs,
                "color=\""@ + edge::rgb_text(r.heat) + "\""@,
            )
            &&& r.lines == 0 ==> holds(attrs, "penwidth="@ + edge::tenths_text(10))
            &&& r.lines > 0 && 5 <= r.width <= 80 ==> holds(
                attrs,
                "penwidth="@ + edge::tenths_text(r.width as nat),
            )
        }),
{
    reveal_strlit("URL=\"");
    reveal_strlit("tooltip=\"");
    reveal_strlit("xlabel=\"");
    reveal_strlit("id=\"files:");
    reveal_strlit("penwidth=");
    reveal_strlit("color=\"");
    reveal_strlit("#B0B0B0");
    reveal_strlit("\"");
    reveal_strlit("color=\"#B0B0B0\"");
    let url = match base {
        Some(b) => Some(graph::compare_url(b, from, to)),
        None => None,
    };
    let tooltip = edge::tooltip_text(edge::path_lines(r.steps@, 20, now));
    let files = edge::file_list(text::views(r.files@));
    let color = edge::heat_color(r.files@.len(), max_files, r.heat);
    let parts = seq![
        edge::url_part(url),
        edge::tooltip_part(tooltip),
        edge::label_part(edge::path_total(r.steps@)),
        edge::files_part(files),
        "penwidth="@ + edge::tenths_text(edge::edge_width(r.lines as nat, r.width) as nat),
        "color=\""@ + color + "\""@,
    ];
    assert("color=\"#B0B0B0\""@ =~= "color=\""@ + "#B0B0B0"@ + "\""@);
    if base is Some {
        lemma_attrs_hold(parts, 0);
    }
    if tooltip is Some {
        lemma_attrs_hold(parts, 1);
    }
    if edge::path_total(r.steps@) > 0 {
        lemma_attrs_hold(parts, 2);
    }
    if files is Some {
        lemma_attrs_hold(parts, 3);
    }
    lemma_attrs_hold(parts, 4);
    lemma_attrs_hold(parts, 5);
}

/// The list of files begins with the first thirty, or with all where there are no more, in their
/// order, and is nothing else where there are no more.
pub proof fn law_first_files_are_listed(files: Seq<Seq<char>>)
    ensures
        match edge::file_list(files) {
            None => files.len() == 0,
            Some(list) => {
                &&& files.len() > 0
                &&& files.len() <= 30 ==> list == search::join(files, "|"@)
                &&& files.len() > 30 ==> list == search::join(files.take(30), "|"@) + "|... +"@
                    + number::decimal((files.len() - 30) as nat) + " more"@
            },
        },
{
}

/// Each commit that a tooltip names has a line there, with hash, summary, author and age.
pub proof fn law_tooltip_has_every_line(ls: Seq<edge::PathLineView>, i: int)
    requires
        0 <= i < ls.len(),
    ensures
        edge::tooltip_text(ls) matches Some(t) && holds(
            t,
            ls[i].hash + ": "@ + ls[i].message + " ("@ + ls[i].author + ", "@ + ls[i].when + ")"@,
        ),
{
    lemma_join_holds(edge::tooltip_lines(ls), "\n"@, i);
}

// ---------------------------------------------------------------------------------------------
// What a node tells
// ---------------------------------------------------------------------------------------------

proof fn lemma_label_locals(refs: Seq<Seq<char>>)
    ensures
        names::ascending(commit_node::label_locals(refs)),
        forall|i: int|
            0 <= i < refs.len() && commit_node::ref_kind(#[trigger] refs[i])
                == commit_node::RefKind::Local ==> commit_node::label_locals(refs).contains(
                commit_node::local_name(refs[i]),
            ),
    decreases refs.len(),
{
    if refs.len() > 0 {
        let rest = refs.drop_last();
        lemma_label_locals(rest);
        let before = commit_node::label_locals(rest);
        names::lemma_with_name(before, commit_node::local_name(refs.last()));
        assert forall|i: int|
            0 <= i < refs.len() && commit_node::ref_kind(#[trigger] refs[i])
                == commit_node::RefKind::Local implies commit_node::label_locals(refs).contains(
            commit_node::local_name(refs[i]),
        ) by {
            if i < rest.len() {
                assert(rest[i] == refs[i]);
            }
        }
    }
}

proof fn lemma_with_pair_holds(
    s: Seq<(Seq<char>, Seq<char>)>,
    t: (Seq<char>, Seq<char>),
    x: (Seq<char>, Seq<char>),
)
    requires
        x == t || s.contains(x),
    ensures
        names::with_pair(s, t).contains(x),
    decreases s.len(),
{
    let r = names::with_pair(s, t);
    if s.len() == 0 {
        assert(r[0] == t);
    } else if s[0] == t {
        assert(s.contains(s[0]));
    } else if names::pair_less(t, s[0]) {
        assert(r[0] == t);
        if x != t {
            let i = choose|i: int| 0 <= i < s.len() && s[i] == x;
            assert(r[i + 1] == x);
        }
    } else {
        let rest = s.drop_first();
        if x == s[0] {
            assert(r[0] == x);
        } else {
            if x != t {
                let i = choose|i: int| 0 <= i < s.len() && s[i] == x;
                assert(rest[i - 1] == x);
            }
            lemma_with_pair_holds(rest, t, x);
            let more = names::with_pair(rest, t);
            let i = choose|i: int| 0 <= i < more.len() && more[i] == x;
            assert(r[i + 1] == x);
        }
    }
}

proof fn lemma_label_remotes(refs: Seq<Seq<char>>, i: int, p: (Seq<char>, Seq<char>))
    requires
        0 <= i < refs.len(),
        commit_node::ref_kind(refs[i]) == commit_node::RefKind::Remote,
        commit_node::remote_pair(refs[i]) == Some(p),
    ensures
        commit_node::label_remotes(refs).contains(p),
    decreases refs.len(),
{
    let rest = refs.drop_last();
    let before = commit_node::label_remotes(rest);
    if i < rest.len() {
        assert(rest[i] == refs[i]);
        lemma_label_remotes(rest, i, p);
        if commit_node::ref_kind(refs.last()) == commit_node::RefKind::Remote {
            match commit_node::remote_pair(refs.last()) {
                Some(q) => {
                    lemma_with_pair_holds(before, q, p);
                },
                None => {},
            }
        }
    } else {
        lemma_with_pair_holds(before, p, p);
    }
}

proof fn lemma_label_others(refs: Seq<Seq<char>>, i: int)
    requires
        0 <= i < refs.len(),
        commit_node::ref_kind(refs[i]) == commit_node::RefKind::Other,
    ensures
        commit_node::label_others(refs).contains(text::trim_start_matches(refs[i], "refs/"@)),
    decreases refs.len(),
{
    let rest = refs.drop_last();
    let before = commit_node::label_others(rest);
    let all = commit_node::label_others(refs);
    let x = text::trim_start_matches(refs[i], "refs/"@);
    if i < rest.len() {
        assert(rest[i] == refs[i]);
        lemma_label_others(rest, i);
        let k = choose|k: int| 0 <= k < before.len() && before[k] == x;
        assert(all[k] == x);
    } else {
        assert(all[before.len() as int] == x);
    }
}

/// The prefix of a name is taken off where the rest does not begin with it again.
proof fn lemma_prefix_off(prefix: Seq<char>, name: Seq<char>)
    requires
        prefix.len() > 0,
        !text::starts_with(name, prefix),
    ensures
        text::trim_start_matches(prefix + name, prefix) == name,
        text::starts_with(prefix + name, prefix),
{
    assert((prefix + name).take(prefix.len() as int) =~= prefix);
    assert((prefix + name).skip(prefix.len() as int) =~= name);
    assert(text::trim_start_matches(name, prefix) == name);
    assert(text::trim_start_matches(prefix + name, prefix) == text::trim_start_matches(
        name,
        prefix,
    ));
}

proof fn lemma_part_of_label(v: NodeView, x: Seq<char>)
    requires
        v.refs.len() > 0 || v.tags.len() > 0,
        commit_node::label_locals(v.refs).contains(x) || commit_node::remote_texts(
            commit_node::label_remotes(v.refs),
        ).contains(x) || commit_node::label_others(v.refs).contains(x) || commit_node::tag_names(
            v.tags,
        ).contains(x),
    ensures
        commit_node::label_parts(v).contains(x),
{
    let a = commit_node::label_locals(v.refs);
    let b = commit_node::remote_texts(commit_node::label_remotes(v.refs));
    let c = commit_node::label_others(v.refs);
    let d = commit_node::tag_names(v.tags);
    let all = a + b + c + d;
    if a.contains(x) {
        let i = choose|i: int| 0 <= i < a.len() && a[i] == x;
        assert(all[i] == x);
    } else if b.contains(x) {
        let i = choose|i: int| 0 <= i < b.len() && b[i] == x;
        assert(all[a.len() + i] == x);
    } else if c.contains(x) {
        let i = choose|i: int| 0 <= i < c.len() && c[i] == x;
        assert(all[a.len() + b.len() + i] == x);
    } else {
        let i = choose|i: int| 0 <= i < d.len() && d[i] == x;
        assert(all[a.len() + b.len() + c.len() + i] == x);
    }
}

/// The label of a commit names every local branch, every remote branch, every other ref and every
/// tag that stands at it.
pub proof fn law_label_names_every_ref(v: NodeView, name: Seq<char>, remote: Seq<char>)
    ensures
        v.refs.contains("refs/heads/"@ + name) && !text::starts_with(name, "refs/heads/"@)
            ==> commit_node::label_parts(v).contains(name),
        v.refs.contains("refs/remotes/"@ + (remote + "/"@ + name)) && !remote.contains('/')
            && !text::starts_with(remote + "/"@ + name, "refs/remotes/"@)
            ==> commit_node::label_parts(v).contains(remote + "/"@ + name),
        v.refs.contains(name) && !text::starts_with(name, "refs/"@) ==> commit_node::label_parts(
            v,
        ).contains(name),
        v.tags.contains("refs/tags/"@ + name) && !text::starts_with(name, "refs/tags/"@)
            ==> commit_node::label_parts(v).contains(name),
{
    reveal_strlit("refs/");
    reveal_strlit("refs/heads/");
    reveal_strlit("refs/remotes/");
    reveal_strlit("refs/tags/");
    reveal_strlit("/");
    let heads = "refs/heads/"@;
    let remotes = "refs/remotes/"@;
    if v.refs.contains(heads + name) && !text::starts_with(name, heads) {
        let i = choose|i: int| 0 <= i < v.refs.len() && v.refs[i] == heads + name;
        lemma_prefix_off(heads, name);
        lemma_label_locals(v.refs);
        assert(commit_node::ref_kind(v.refs[i]) == commit_node::RefKind::Local);
        lemma_part_of_label(v, name);
    }
    let full = remote + "/"@ + name;
    if v.refs.contains(remotes + full) && !remote.contains('/') && !text::starts_with(
        full,
        remotes,
    ) {
        let i = choose|i: int| 0 <= i < v.refs.len() && v.refs[i] == remotes + full;
        lemma_prefix_off(remotes, full);
        if text::starts_with(v.refs[i], heads) {
            assert(v.refs[i].take(11)[5] == 'h');
            assert((remotes + full)[5] == 'r');
        }
        assert("/"@ =~= seq!['/']);
        lemma_split_once_at(remote, '/', name);
        let list = commit_node::label_remotes(v.refs);
        lemma_label_remotes(v.refs, i, (remote, name));
        let k = choose|k: int| 0 <= k < list.len() && list[k] == (remote, name);
        assert(commit_node::remote_texts(list)[k] == full);
        lemma_part_of_label(v, full);
    }
    if v.refs.contains(name) && !text::starts_with(name, "refs/"@) {
        let i = choose|i: int| 0 <= i < v.refs.len() && v.refs[i] == name;
        if text::starts_with(name, heads) {
            assert(name.take(5) =~= name.take(11).take(5));
            assert(heads.take(5) =~= "refs/"@);
        }
        if text::starts_with(name, remotes) {
            assert(name.take(5) =~= name.take(13).take(5));
            assert(remotes.take(5) =~= "refs/"@);
        }
        lemma_label_others(v.refs, i);
        lemma_part_of_label(v, name);
    }
    let tags = "refs/tags/"@;
    if v.tags.contains(tags + name) && !text::starts_with(name, tags) {
        let i = choose|i: int| 0 <= i < v.tags.len() && v.tags[i] == tags + name;
        lemma_prefix_off(tags, name);
        assert(commit_node::tag_names(v.tags)[i] == name);
        lemma_part_of_label(v, name);
    }
}

proof fn lemma_split_once_at(a: Seq<char>, c: char, b: Seq<char>)
    requires
        !a.contains(c),
    ensures
        search::split_once(a + seq![c] + b, seq![c]) == Some((a, b)),
{
    let s = a + seq![c] + b;
    let p = seq![c];
    let n = a.len() as int;
    search::lemma_find_from(s, p, 0);
    assert(s.subrange(n, n + 1) =~= p);
    assert(text::occurs_at(s, p, n));
    assert forall|j: int| 0 <= j < n implies !text::occurs_at(s, p, j) by {
        if text::occurs_at(s, p, j) {
            assert(s.subrange(j, j + 1)[0] == c);
            assert(a[j] == c);
        }
    }
    assert(s.take(n) =~= a);
    assert(s.skip(n + 1) =~= b);
}

/// A commit is colored by the first branch among its refs, local or remote.
pub proof fn law_first_branch_gives_the_colors(v: NodeView, theme: Theme, i: int, name: Seq<char>)
    requires
        0 <= i < v.refs.len(),
        forall|j: int|
            0 <= j < i ==> commit_node::ref_kind(#[trigger] v.refs[j])
                == commit_node::RefKind::Other,
        ({
            ||| v.refs[i] == "refs/heads/"@ + name && !text::starts_with(name, "refs/heads/"@)
            ||| exists|remote: Seq<char>|
                v.refs[i] == "refs/remotes/"@ + (#[trigger] (remote + "/"@ + name))
                    && !remote.contains('/') && !text::starts_with(
                    remote + "/"@ + name,
                    "refs/remotes/"@,
                )
        }),
    ensures
        ({
            let c = theme::kind_colors(theme, theme::branch_kind(name));
            let n = commit_node::node_colors(v, theme);
            n.fill == c.0 && n.border == c.1 && n.font == c.2 && !n.dashed && n.base_penwidth == 10
        }),
{
    reveal_strlit("refs/heads/");
    reveal_strlit("refs/remotes/");
    reveal_strlit("/");
    let heads = "refs/heads/"@;
    let remotes = "refs/remotes/"@;
    let r = v.refs[i];
    if r == heads + name && !text::starts_with(name, heads) {
        lemma_prefix_off(heads, name);
        assert(commit_node::ref_kind(r) == commit_node::RefKind::Local);
    } else {
        let remote = choose|remote: Seq<char>|
            r == remotes + (#[trigger] (remote + "/"@ + name)) && !remote.contains('/')
                && !text::starts_with(remote + "/"@ + name, remotes);
        let full = remote + "/"@ + name;
        lemma_prefix_off(remotes, full);
        if text::starts_with(r, heads) {
            assert(r.take(11)[5] == 'h');
            assert((remotes + full)[5] == 'r');
        }
        assert("/"@ =~= seq!['/']);
        lemma_split_once_at(remote, '/', name);
        assert(commit_node::ref_kind(r) == commit_node::RefKind::Remote);
    }
    lemma_primary(v.refs, i, name);
}

proof fn lemma_primary(refs: Seq<Seq<char>>, i: int, name: Seq<char>)
    requires
        0 <= i < refs.len(),
        forall|j: int|
            0 <= j < i ==> commit_node::ref_kind(#[trigger] refs[j]) == commit_node::RefKind::Other,
        match commit_node::ref_kind(refs[i]) {
            commit_node::RefKind::Local => commit_node::local_name(refs[i]) == name,
            commit_node::RefKind::Remote => commit_node::remote_pair(refs[i]) matches Some(p)
                && p.1 == name,
            commit_node::RefKind::Other => false,
        },
    ensures
        commit_node::primary_branch(refs) == Some(name),
    decreases refs.len(),
{
    let rest = refs.drop_last();
    assert(forall|j: int| 0 <= j < rest.len() ==> rest[j] == refs[j]);
    if i < rest.len() {
        lemma_primary(rest, i, name);
    } else {
        lemma_no_primary(rest);
    }
}

proof fn lemma_no_primary(refs: Seq<Seq<char>>)
    requires
        forall|j: int|
            0 <= j < refs.len() ==> commit_node::ref_kind(#[trigger] refs[j])
                == commit_node::RefKind::Other,
    ensures
        commit_node::primary_branch(refs) is None,
    decreases refs.len(),
{
    if refs.len() > 0 {
        let rest = refs.drop_last();
        assert(forall|j: int| 0 <= j < rest.len() ==> rest[j] == refs[j]);
        lemma_no_primary(rest);
        assert(commit_node::ref_kind(refs[refs.len() - 1]) == commit_node::RefKind::Other);
    }
}

/// A commit without a branch is colored by a tag, and without a tag by another ref. One that has
/// no name at all is plain, and stands out if it is checked out.
pub proof fn law_names_decide_the_colors(v: NodeView, theme: Theme)
    requires
        forall|j: int|
            0 <= j < v.refs.len() ==> commit_node::ref_kind(#[trigger] v.refs[j])
                == commit_node::RefKind::Other,
    ensures
        ({
            let n = commit_node::node_colors(v, theme);
            let t = theme::theme_colors(theme);
            &&& v.tags.len() > 0 ==> n.fill == t.tag_fill && n.border == t.tag_border && n.font
                == t.tag_font && n.base_penwidth == t.tag_penwidth
            &&& v.tags.len() == 0 && v.refs.len() > 0 ==> n.fill == t.other_fill && n.border
                == t.other_border && n.font == t.other_font
            &&& v.tags.len() == 0 && v.refs.len() == 0 && v.is_current_checkout ==> n.fill
                == t.plain_current_fill && n.border == t.plain_current_border && n.font
                == t.plain_current_font
            &&& v.tags.len() == 0 && v.refs.len() == 0 && !v.is_current_checkout ==> n.fill
                == t.plain_fill && n.border == t.plain_border && n.font == t.plain_font
            &&& n.dashed <==> v.tags.len() > 0
        }),
{
}

proof fn lemma_holds_on(whole: Seq<char>, more: Seq<char>, part: Seq<char>)
    requires
        holds(whole, part),
    ensures
        holds(whole + more, part),
{
    let none = Seq::<char>::empty();
    lemma_holds_in(none, whole, more, part);
    assert(none + whole + more =~= whole + more);
}

proof fn lemma_holds_end(whole: Seq<char>, part: Seq<char>)
    ensures
        holds(whole + part, part),
{
    assert(whole + part =~= whole + part + Seq::<char>::empty());
}

/// The statement of a node holds each part of its label, escaped, and says `CURRENT` if the commit
/// is checked out.
pub proof fn law_node_shows_its_label(v: NodeView, theme: Theme, i: int)
    requires
        0 <= i < commit_node::label_parts(v).len(),
    ensures
        holds(
            commit_node::dot_node(v, theme),
            escape::dot_escaped(commit_node::label_parts(v)[i]),
        ),
        v.is_current_checkout ==> holds(commit_node::dot_node(v, theme), "CURRENT\\n"@),
{
    let parts = commit_node::escaped_all(commit_node::label_parts(v));
    let part = escape::dot_escaped(commit_node::label_parts(v)[i]);
    let base = search::join(parts, "\\n"@);
    assert(parts[i] == part);
    lemma_join_holds(parts, "\\n"@, i);
    let current = if v.is_current_checkout {
        "CURRENT\\n"@ + base
    } else {
        base
    };
    let label = commit_node::dot_label(v);
    if v.is_current_checkout {
        lemma_holds_in("CURRENT\\n"@, base, seq![], part);
        assert("CURRENT\\n"@ + base + Seq::<char>::empty() =~= current);
        lemma_holds_start("CURRENT\\n"@, base);
        if v.branch_readme is Some {
            lemma_holds_on(current, "\\n📝"@, "CURRENT\\n"@);
        }
        lemma_label_in_statement(v, theme, "CURRENT\\n"@);
    }
    if v.branch_readme is Some {
        lemma_holds_on(current, "\\n📝"@, part);
    }
    lemma_label_in_statement(v, theme, part);
}

proof fn lemma_label_in_statement(v: NodeView, theme: Theme, part: Seq<char>)
    requires
        holds(commit_node::dot_label(v), part),
    ensures
        holds(commit_node::dot_node(v, theme), part),
{
    let label = commit_node::dot_label(v);
    let colors = commit_node::node_colors(v, theme);
    let id = commit_node::node_id(v);
    let a = "\""@ + v.id + "\" [id=\""@ + id + "\", label=\""@;
    lemma_holds_in(a, label, seq![], part);
    let b = a + label;
    assert(a + label + Seq::<char>::empty() =~= b);
    let c = b + "\", shape=box, style=\""@;
    lemma_holds_on(b, "\", shape=box, style=\""@, part);
    let d = c + commit_node::dot_style(colors.dashed, commit_node::has_branch(v))@;
    lemma_holds_on(c, commit_node::dot_style(colors.dashed, commit_node::has_branch(v))@, part);
    let e = d + "\", color=\""@;
    lemma_holds_on(d, "\", color=\""@, part);
    let f = e + colors.border@;
    lemma_holds_on(e, colors.border@, part);
    let g = f + "\", fillcolor=\""@;
    lemma_holds_on(f, "\", fillcolor=\""@, part);
    let h = g + colors.fill@;
    lemma_holds_on(g, colors.fill@, part);
    let i = h + "\", fontname=\"Arial\", fontsize="@;
    lemma_holds_on(h, "\", fontname=\"Arial\", fontsize="@, part);
    let size = number::decimal(
        if colors.dashed {
            8
        } else {
            9
        },
    );
    let j = i + size;
    lemma_holds_on(i, size, part);
    let k = j + ", fontcolor=\""@;
    lemma_holds_on(j, ", fontcolor=\""@, part);
    let l = k + colors.font@;
    lemma_holds_on(k, colors.font@, part);
    let m = l + "\", penwidth="@;
    lemma_holds_on(l, "\", penwidth="@, part);
    let width = commit_node::width_text(
        if v.is_current_checkout {
            20
        } else {
            colors.base_penwidth as nat
        },
    );
    let n = m + width;
    lemma_holds_on(m, width, part);
    let o = n + ", width=0.9, height=0.4"@;
    lemma_holds_on(n, ", width=0.9, height=0.4"@, part);
    let p = o + commit_node::dot_tooltip(v);
    lemma_holds_on(o, commit_node::dot_tooltip(v), part);
    lemma_holds_on(p, "]"@, part);
    assert(commit_node::dot_node(v, theme) == p + "]"@);
}

} // verus!
