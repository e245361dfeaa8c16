use ggv::edge::{
    build_edge_attrs, build_tooltip, collect_path_commits_with_count, edge_heatmap_color,
    edge_penwidth, list_files, EdgeRecord, PathLine, PathStep,
};
use ggv::filter::RefFilter;
use ggv::graph::{
    build_graph_tooltip, choose_splines, detect_gitlab_url, parse_gitlab_remote_url, GitGraphviz,
    HeadCommit, HeadInfo, HeadName, RemoteRecord, RepoInfo,
};
use ggv::graphviz::enhance_svg;
use ggv::history::{CommitRecord, History};
use ggv::nodes::GraphError;
use ggv::snapshot::{
    collect_marks, BranchName, BranchRecord, MarkKind, Selection, Snapshot, TagRecord,
};
use ggv::theme::Theme;
use ggv::traverse::{
    condensed_set, connects_to_referenced_commit, find_condensed_connections,
    find_next_condensed_commit,
};

fn id(i: usize) -> String {
    format!("{:040x}", i + 0xabc0000)
}

fn record(i: usize, parents: &[usize]) -> CommitRecord {
    CommitRecord {
        id: id(i),
        readable: true,
        message: format!("message {i}"),
        timestamp: 100 * i as i64,
        parents: parents.to_vec(),
    }
}

/// 0 <- 1 <- 2, 1 <- 3, a merge 4 of 2 and 3, and 5 on top.
fn diamond() -> History {
    History::new(vec![
        record(0, &[]),
        record(1, &[0]),
        record(2, &[1]),
        record(3, &[1]),
        record(4, &[2, 3]),
        record(5, &[4]),
    ])
    .unwrap()
}

/// `n` commits in a row, each the parent of the next.
fn row(n: usize) -> History {
    let mut commits = vec![record(0, &[])];
    for i in 1..n {
        commits.push(record(i, &[i - 1]));
    }
    History::new(commits).unwrap()
}

fn branch(name: &str, target: usize) -> BranchRecord {
    BranchRecord { name: BranchName::Text(name.to_string()), target: Some(target) }
}

fn snapshot(history: History) -> Snapshot {
    Snapshot {
        history,
        local: Vec::new(),
        remote: Vec::new(),
        head: None,
        stashes: Vec::new(),
        tags: Vec::new(),
        newest: Vec::new(),
    }
}

fn selection(filter: &str) -> Selection {
    Selection {
        filter: RefFilter::from_string(filter),
        current_branch_only: false,
        limit: 0,
    }
}

fn sample() -> Snapshot {
    let mut s = snapshot(diamond());
    s.local = vec![branch("main", 5), branch("feature/x", 3)];
    s.remote = vec![branch("origin/main", 4)];
    s.tags = vec![TagRecord { name: "refs/tags/v1".to_string(), target: 1 }];
    s.head = Some(5);
    s
}

fn names(s: &Snapshot, sel: &Selection) -> Vec<(String, usize)> {
    collect_marks(s, sel).into_iter().map(|m| (m.name, m.target)).collect()
}

fn pairs(list: &[(&str, usize)]) -> Vec<(String, usize)> {
    list.iter().map(|p| (p.0.to_string(), p.1)).collect()
}

#[test]
fn histories_need_their_parents() {
    assert!(History::new(vec![record(0, &[1])]).is_none());
    assert!(History::new(vec![record(0, &[])]).is_some());
    let mut unread = record(0, &[7]);
    unread.readable = false;
    assert!(History::new(vec![unread]).is_some());
}

#[test]
fn histories_hold_each_commit_once() {
    for n in 0..9 {
        let commits = || -> Vec<CommitRecord> { (0..n).rev().map(|i| record(i * 7 % 9, &[])).collect() };
        assert_eq!(History::new(commits()).unwrap().len(), n);
        for i in 0..n {
            let mut list = commits();
            list.push(record(i * 7 % 9, &[]));
            assert!(History::new(list).is_none());
        }
    }
    assert_eq!(row(3000).len(), 3000);
}

#[test]
fn ancestors_of_a_commit() {
    let h = diamond();
    assert_eq!(h.len(), 6);
    assert_eq!(h.get(4).id, id(4));
    assert_eq!(h.ancestors(3), [true, true, false, true, false, false]);
    assert_eq!(h.ancestors(5), [true; 6]);
    assert_eq!(h.ancestors(0), [true, false, false, false, false, false]);
}

#[test]
fn marks_by_kind() {
    let s = sample();
    assert_eq!(names(&s, &selection("b")), pairs(&[("refs/heads/main", 5), ("refs/heads/feature/x", 3), ("", 5)]));
    assert_eq!(names(&s, &selection("r")), pairs(&[("refs/remotes/origin/main", 4), ("", 5)]));
    assert_eq!(names(&s, &selection("t")), pairs(&[("", 5), ("refs/tags/v1", 1)]));
    assert_eq!(names(&s, &selection("h")), pairs(&[("", 5), ("HEAD", 5)]));
    assert_eq!(names(&s, &selection("")), pairs(&[("", 5)]));
    let marks = collect_marks(&s, &selection("th"));
    let kinds: Vec<MarkKind> = marks.iter().map(|m| m.kind).collect();
    assert_eq!(kinds, [MarkKind::Checkout, MarkKind::Ref, MarkKind::Tag]);
}

#[test]
fn names_of_branches() {
    let mut s = snapshot(diamond());
    s.local = vec![
        BranchRecord { name: BranchName::NotText, target: Some(2) },
        BranchRecord { name: BranchName::Unreadable, target: Some(3) },
        BranchRecord { name: BranchName::Text("alias".to_string()), target: None },
    ];
    assert_eq!(names(&s, &selection("b")), pairs(&[("refs/heads/unknown", 2)]));
}

#[test]
fn stashes_are_numbered() {
    let mut s = snapshot(diamond());
    s.stashes = vec![4, 2];
    let marks = collect_marks(&s, &selection("s"));
    assert_eq!(marks.len(), 2);
    assert_eq!(marks[0].name, "stash@{0}");
    assert_eq!(marks[1].name, "stash@{1}");
    assert_eq!(marks[1].target, 2);
    assert_eq!(marks[1].kind, MarkKind::Stash);
    assert!(collect_marks(&s, &selection("brth")).is_empty());
}

#[test]
fn current_branch_hides_other_refs() {
    let mut s = sample();
    s.head = Some(3);
    let mut sel = selection("brt");
    sel.current_branch_only = true;
    assert_eq!(names(&s, &sel), pairs(&[("refs/heads/feature/x", 3), ("", 3), ("refs/tags/v1", 1)]));
    s.head = None;
    assert_eq!(names(&s, &sel).len(), 4);
}

#[test]
fn current_branch_hides_stashes_and_tags_under_a_limit() {
    let mut s = sample();
    s.head = Some(3);
    s.stashes = vec![4, 1];
    s.tags.push(TagRecord { name: "refs/tags/v2".to_string(), target: 5 });
    s.newest = vec![5, 4, 3, 2, 1, 0];
    let mut sel = selection("st");
    sel.current_branch_only = true;
    let expected = pairs(&[("", 3), ("stash@{1}", 1), ("refs/tags/v1", 1)]);
    assert_eq!(names(&s, &sel), expected);
    sel.limit = 6;
    assert_eq!(names(&s, &sel), expected);
    sel.limit = 4;
    assert_eq!(names(&s, &sel), pairs(&[("", 3)]));
}

#[test]
fn limit_hides_old_commits() {
    let mut s = sample();
    s.newest = vec![5, 4, 3, 2, 1, 0];
    let mut sel = selection("brth");
    sel.limit = 2;
    assert_eq!(
        names(&s, &sel),
        pairs(&[("refs/heads/main", 5), ("refs/remotes/origin/main", 4), ("", 5), ("HEAD", 5)])
    );
    sel.limit = 100;
    assert_eq!(names(&s, &sel).len(), 6);
}

#[test]
fn walks_give_up_after_a_hundred_commits() {
    let h = row(200);
    let mut shown = vec![false; 200];
    shown[0] = true;
    assert!(connects_to_referenced_commit(&h, &shown, 100));
    assert!(!connects_to_referenced_commit(&h, &shown, 101));
    assert_eq!(find_next_condensed_commit(&h, &shown, 199), Some(0));
}

#[test]
fn next_commit_prefers_the_last_parent() {
    let h = diamond();
    let mut kept = vec![false; 6];
    kept[2] = true;
    kept[3] = true;
    assert_eq!(find_next_condensed_commit(&h, &kept, 5), Some(3));
    assert_eq!(find_next_condensed_commit(&h, &kept, 2), Some(2));
    assert_eq!(find_next_condensed_commit(&h, &kept, 1), None);
}

#[test]
fn junctions_join_two_ways() {
    let h = diamond();
    let none = vec![false; 6];
    let mut shown = vec![false; 6];
    shown[5] = true;
    shown[3] = true;
    shown[1] = true;
    assert_eq!(condensed_set(&h, &shown, &none), [false, true, false, true, true, true]);
    shown[3] = false;
    assert_eq!(condensed_set(&h, &shown, &none), [false, true, false, false, true, true]);
    shown[1] = false;
    assert_eq!(condensed_set(&h, &shown, &none), [false, false, false, false, false, true]);
}

#[test]
fn connections_are_listed_once() {
    let h = diamond();
    let none = vec![false; 6];
    let kept = vec![false, true, false, false, true, true];
    assert_eq!(find_condensed_connections(&h, &kept, &none, 4), [1]);
    assert_eq!(find_condensed_connections(&h, &kept, &none, 5), [4]);
    assert!(find_condensed_connections(&h, &kept, &none, 1).is_empty());
}

#[test]
fn stashes_follow_their_first_parent() {
    let h = diamond();
    let kept = vec![false, false, true, true, true, false];
    let mut stash = vec![false; 6];
    assert_eq!(find_condensed_connections(&h, &kept, &stash, 4), [2, 3]);
    stash[4] = true;
    assert_eq!(find_condensed_connections(&h, &kept, &stash, 4), [2]);
}

fn viz(s: Snapshot, sel: Selection) -> GitGraphviz {
    GitGraphviz::new(s, &Vec::new(), sel, None, None, Theme::Dark)
}

#[test]
fn graph_of_a_diamond() {
    let g = viz(sample(), selection("bt"));
    let collected = g.collect_refs().unwrap();
    assert_eq!(collected.tip_pairs(), [(5, 3)]);
    let readmes = vec![None, None, None, Some("  About x\n".to_string()), None, None];
    let graph = g.condense(collected, &vec![3], &readmes).unwrap();
    for i in 0..6 {
        assert!(graph.node(i).map_or(true, |n| n.hash() == id(i)));
    }
    assert_eq!(graph.node_count(), 5);
    assert_eq!(graph.edges(), [(0, 1), (1, 3), (1, 4), (3, 4), (4, 5)]);
    assert!(graph.node(2).is_none());
    let dot = graph.node(3).unwrap().get_dot_node(Theme::Dark);
    assert!(dot.contains("tooltip=\"About x\""));
    assert!(graph.node(5).unwrap().get_dot_node(Theme::Dark).contains("CURRENT"));
    assert!(graph.node(0).unwrap().get_dot_node(Theme::Dark).contains("label=\"ROOT\""));
    assert!(graph.node(1).unwrap().get_dot_node(Theme::Dark).contains("label=\"v1\""));
    assert!(graph.node(5).unwrap().get_dot_node(Theme::Dark).contains("~L~main"));
    let junction = graph.node(4).unwrap().get_dot_node(Theme::Dark);
    assert!(junction.contains(&format!("label=\"{}\"", &id(4)[..7])));
}

#[test]
fn graph_limited_to_descendants() {
    let mut s = sample();
    s.local.push(branch("old", 0));
    let g = GitGraphviz::new(s, &Vec::new(), selection("bt"), None, Some(3), Theme::Dark);
    let graph = g.condense(g.collect_refs().unwrap(), &vec![3, 0], &Vec::new()).unwrap();
    let kept: Vec<bool> = (0..6).map(|i| graph.node(i).is_some()).collect();
    assert_eq!(kept, [false, false, false, true, false, true]);
    assert!(graph.node(3).unwrap().get_dot_node(Theme::Dark).contains("ROOT"));
    assert_eq!(graph.edges(), [(3, 5)]);
}

#[test]
fn graph_limited_to_descendants_under_a_limit() {
    let mut s = sample();
    s.local.push(branch("old", 2));
    s.newest = vec![5, 4, 3, 2];
    let mut sel = selection("b");
    sel.limit = 4;
    let g = GitGraphviz::new(s, &Vec::new(), sel, None, Some(3), Theme::Dark);
    let graph = g.condense(g.collect_refs().unwrap(), &Vec::new(), &Vec::new()).unwrap();
    let kept: Vec<bool> = (0..6).map(|i| graph.node(i).is_some()).collect();
    assert_eq!(kept, [false, false, false, true, false, true]);
    assert!(graph.edges().iter().all(|e| e.1 != 3));

    let mut unread = record(0, &[]);
    unread.readable = false;
    let mut s = snapshot(History::new(vec![unread, record(1, &[0])]).unwrap());
    s.newest = vec![1];
    let mut sel = selection("b");
    sel.limit = 1;
    let g = GitGraphviz::new(s, &Vec::new(), sel, None, Some(0), Theme::Dark);
    let e = g.condense(g.collect_refs().unwrap(), &Vec::new(), &Vec::new()).unwrap_err();
    assert_eq!(e, GraphError::MissingCommit(0));
}

#[test]
fn graph_with_a_limit_has_no_roots() {
    let mut s = sample();
    s.newest = vec![5, 4, 3];
    let mut sel = selection("b");
    sel.limit = 3;
    let g = viz(s, sel);
    let graph = g.condense(g.collect_refs().unwrap(), &vec![0], &Vec::new()).unwrap();
    assert!(graph.node(0).is_none());
    assert!(graph.node(3).is_some());
    assert_eq!(graph.edges(), [(3, 5)]);
}

#[test]
fn unreadable_commits_are_errors() {
    let mut r = record(0, &[]);
    r.readable = false;
    let h = || {
        let mut r = record(0, &[]);
        r.readable = false;
        History::new(vec![r, record(1, &[0])]).unwrap()
    };
    let mut s = snapshot(h());
    s.local = vec![branch("gone", 0)];
    assert_eq!(viz(s, selection("b")).collect_refs().unwrap_err(), GraphError::MissingCommit(0));

    let mut s = snapshot(h());
    s.local = vec![branch("main", 1)];
    s.head = Some(1);
    let g = viz(s, selection("b"));
    let e = g.condense(g.collect_refs().unwrap(), &Vec::new(), &Vec::new()).unwrap_err();
    assert_eq!(e, GraphError::MissingCommit(0));
    let e = g.condense(g.collect_refs().unwrap(), &vec![0], &Vec::new()).unwrap_err();
    assert_eq!(e, GraphError::MissingCommit(0));

    let mut s = snapshot(h());
    s.local = vec![branch("main", 1)];
    let g = viz(s, selection("b"));
    let e = g.condense(g.collect_refs().unwrap(), &Vec::new(), &Vec::new()).unwrap_err();
    assert_eq!(e, GraphError::NoHead);

    let mut s = snapshot(h());
    s.local = vec![branch("main", 1)];
    let g = GitGraphviz::new(s, &Vec::new(), selection("b"), None, Some(0), Theme::Dark);
    let e = g.condense(g.collect_refs().unwrap(), &Vec::new(), &Vec::new()).unwrap_err();
    assert_eq!(e, GraphError::MissingCommit(0));
}

#[test]
fn descriptions_have_ten_lines() {
    let mut s = snapshot(row(1));
    s.local = vec![branch("main", 0)];
    s.head = Some(0);
    let g = viz(s, selection("b"));
    let text: String = (1..=12).map(|i| format!("{i}\n")).collect();
    let graph = g.condense(g.collect_refs().unwrap(), &Vec::new(), &vec![Some(text)]).unwrap();
    let dot = graph.node(0).unwrap().get_dot_node(Theme::Dark);
    assert!(dot.contains("tooltip=\"1\\n2\\n3\\n4\\n5\\n6\\n7\\n8\\n9\\n10\""));
    let blank = g.condense(g.collect_refs().unwrap(), &Vec::new(), &vec![Some(" \n".to_string())]).unwrap();
    assert!(blank.node(0).unwrap().get_dot_node(Theme::Dark).contains("tooltip=\"message 0\""));
}

#[test]
fn web_addresses() {
    let cases = [
        ("git@gitlab.com:group/project.git", Some("https://gitlab.com/group/project")),
        ("git@github.com:o/r", Some("https://github.com/o/r")),
        ("https://gitlab.com/g/p.git", Some("https://gitlab.com/g/p")),
        ("http://host/p", Some("http://host/p")),
        ("ssh://git@host/p.git", None),
        ("git@host", None),
        ("/srv/repo.git", None),
    ];
    for (url, expected) in cases {
        assert_eq!(parse_gitlab_remote_url(url).as_deref(), expected, "{url}");
    }
}

#[test]
fn origin_is_asked_first() {
    let remote = |name: &str, url: Option<&str>| RemoteRecord {
        name: name.to_string(),
        url: url.map(String::from),
    };
    let list = vec![remote("a", Some("https://a/x")), remote("origin", Some("https://o/x.git"))];
    assert_eq!(detect_gitlab_url(&list).as_deref(), Some("https://o/x"));
    let list = vec![remote("a", None), remote("b", Some("https://b/x")), remote("origin", Some("/srv"))];
    assert_eq!(detect_gitlab_url(&list).as_deref(), Some("https://b/x"));
    assert_eq!(detect_gitlab_url(&Vec::new()), None);
    let g = GitGraphviz::new(snapshot(row(1)), &list, selection(""), Some("https://own".to_string()), None, Theme::Dark);
    assert_eq!(g.forge_url(), Some("https://own"));
    let g = GitGraphviz::new(snapshot(row(1)), &list, selection(""), None, None, Theme::Dark);
    assert_eq!(g.forge_url(), Some("https://b/x"));
}

fn step(i: usize) -> PathStep {
    PathStep::Commit {
        id: id(i),
        summary: format!("s{i}"),
        author: "A".to_string(),
        seconds: 40,
    }
}

#[test]
fn paths_of_edges() {
    let steps: Vec<PathStep> = vec![step(1), PathStep::Unread, step(2)];
    let (lines, total) = collect_path_commits_with_count(&steps, 20, 100);
    assert_eq!(total, 3);
    assert_eq!(lines.len(), 2);
    assert_eq!(lines[0].hash, id(1)[..7]);
    assert_eq!(lines[1].message, "s2");
    assert_eq!(lines[0].when, "1 minute ago");
    let steps: Vec<PathStep> = vec![step(1), PathStep::Failed, step(2)];
    assert_eq!(collect_path_commits_with_count(&steps, 20, 100).1, 1);
}

#[test]
fn long_paths_are_cut() {
    let steps: Vec<PathStep> = (0..25).map(step).collect();
    let (lines, total) = collect_path_commits_with_count(&steps, 20, 100);
    assert_eq!(total, 25);
    assert_eq!(lines.len(), 21);
    assert_eq!(lines[20].hash, "...");
    assert_eq!(lines[20].message, "(truncated)");
    let steps: Vec<PathStep> = (0..2000).map(step).collect();
    let (lines, total) = collect_path_commits_with_count(&steps, 20, 100);
    assert_eq!(total, 2000);
    assert_eq!(lines[20].message, "(truncated)");
    let steps: Vec<PathStep> = (0..2500).map(step).collect();
    let (lines, total) = collect_path_commits_with_count(&steps, 20, 100);
    assert_eq!(total, 2001);
    assert_eq!(lines[20].message, "(2000+ commits, truncated)");
}

#[test]
fn tooltips_of_edges() {
    assert_eq!(build_tooltip(&Vec::new()), None);
    let line = |h: &str| PathLine {
        hash: h.to_string(),
        message: "m".to_string(),
        author: "A".to_string(),
        when: "now".to_string(),
    };
    assert_eq!(
        build_tooltip(&vec![line("a"), line("b")]).as_deref(),
        Some("a: m (A, now)\nb: m (A, now)")
    );
}

#[test]
fn lists_of_files() {
    let files = |n: usize| -> Vec<String> { (0..n).map(|i| format!("f{i}")).collect() };
    assert_eq!(list_files(&files(0)), None);
    assert_eq!(list_files(&files(2)).as_deref(), Some("f0|f1"));
    assert!(list_files(&files(30)).unwrap().ends_with("|f29"));
    assert!(list_files(&files(33)).unwrap().ends_with("|f29|... +3 more"));
}

#[test]
fn widths_and_colors_of_edges() {
    assert_eq!(edge_penwidth(0, 77), 10);
    assert_eq!(edge_penwidth(3, 2), 5);
    assert_eq!(edge_penwidth(3, 12), 12);
    assert_eq!(edge_penwidth(3, 99), 80);
    assert_eq!(edge_heatmap_color(0, 5, (1, 2, 3)), "#B0B0B0");
    assert_eq!(edge_heatmap_color(5, 0, (1, 2, 3)), "#B0B0B0");
    assert_eq!(edge_heatmap_color(5, 5, (204, 0, 10)), "#CC000A");
}

#[test]
fn attributes_of_edges() {
    assert_eq!(
        build_edge_attrs(None, None, 0, None, 10, "#B0B0B0"),
        " [penwidth=1.0, color=\"#B0B0B0\"]"
    );
    assert_eq!(
        build_edge_attrs(Some("u"), Some("a\"\nb"), 3, Some("x\"|y"), 17, "#CC0000"),
        " [URL=\"u\", target=\"_blank\", tooltip=\"a\\\"\\nb\", xlabel=\"3\", id=\"files:x\\\"|y\", penwidth=1.7, color=\"#CC0000\"]"
    );
}

#[test]
fn splines_by_size() {
    assert_eq!(choose_splines("auto", 1200), "ortho");
    assert_eq!(choose_splines("auto", 1201), "polyline");
    assert_eq!(choose_splines("curved", 5000), "curved");
}

#[test]
fn tooltip_of_the_graph() {
    let mut info = RepoInfo { name: "ggv".to_string(), head: None };
    assert_eq!(build_graph_tooltip(&info, 100), "Repository: ggv");
    info.head = Some(HeadInfo { name: HeadName::Detached, commit: None });
    assert_eq!(build_graph_tooltip(&info, 100), "Repository: ggv\nBranch: detached HEAD");
    info.head = Some(HeadInfo { name: HeadName::Branch(None), commit: None });
    assert_eq!(build_graph_tooltip(&info, 100), "Repository: ggv\nBranch: unknown");
    info.head = Some(HeadInfo {
        name: HeadName::Branch(Some("main".to_string())),
        commit: Some(HeadCommit { id: id(1), summary: " s ".to_string(), author: "Ann".to_string(), seconds: 40 }),
    });
    assert_eq!(
        build_graph_tooltip(&info, 100),
        format!("Repository: ggv\nBranch: main\nCommit:  {} s\nAuthor:  Ann\nDate:    1 minute ago", &id(1)[..7])
    );
}

fn edge_record(files: usize) -> EdgeRecord {
    EdgeRecord {
        steps: vec![step(2)],
        files: (0..files).map(|i| format!("f{i}")).collect(),
        lines: 4,
        width: 13,
        heat: (255, 140, 0),
    }
}

#[test]
fn dot_file_of_two_commits() {
    let mut s = snapshot(row(2));
    s.local = vec![branch("main", 1)];
    s.head = Some(1);
    let mut sel = selection("b");
    sel.current_branch_only = true;
    let g = GitGraphviz::new(s, &Vec::new(), sel, Some("https://gitlab.com/g/p".to_string()), None, Theme::Light);
    let graph = g.condense(g.collect_refs().unwrap(), &Vec::new(), &Vec::new()).unwrap();
    let info = RepoInfo { name: "a \"b\"".to_string(), head: None };
    let records = vec![edge_record(2)];
    assert_eq!(g.max_file_count(&graph, &records), 2);
    let dot = g.generate_dot_at(&graph, &records, &info, "auto", 100);
    let root = graph.node(0).unwrap().get_dot_node(Theme::Light);
    let main = graph.node(1).unwrap().get_dot_node(Theme::Light);
    let c = Theme::Light.colors();
    let expected = format!(
        "digraph git {{\n  rankdir=BT;\n  bgcolor=\"#F8FAFC\";\n  node [fontname=\"Arial\", fontsize=9, fontcolor=\"{}\", fillcolor=\"{}\", color=\"{}\", style=filled];\n  edge [color=\"#CBD5E1\", arrowhead=none, dir=none, fontsize=8, fontname=\"Arial\", fontcolor=\"#94A3B8\"];\n  graph [splines=ortho, nodesep=0.4, ranksep=0.5, pad=\"0.5,0.5\", mclimit=5.0, tooltip=\"Repository: a \\\"b\\\"\"];\n  {root}\n  {main}\n  \"{}\" -> \"{}\" [URL=\"https://gitlab.com/g/p/-/compare/{}...main\", target=\"_blank\", tooltip=\"{}: s2 (A, 1 minute ago)\", xlabel=\"1\", id=\"files:f0|f1\", penwidth=1.3, color=\"#FF8C00\"]\n}}\n",
        c.node_default_font,
        c.node_default_fill,
        c.node_default_border,
        id(0),
        id(1),
        id(0),
        &id(2)[..7],
    );
    assert_eq!(dot, expected);
    let later = g.generate_dot(&graph, &records, &info, "auto");
    assert_eq!(later, expected.replace("1 minute ago", &ggv::utils::time_ago(40)));
    let bare = g.generate_dot_at(&graph, &Vec::new(), &info, "auto", 100);
    assert!(bare.contains(" [penwidth=1.0, color=\"#B0B0B0\"]\n"));
}

#[test]
fn github_is_given_hashes() {
    let mut s = snapshot(row(2));
    s.local = vec![branch("main", 1)];
    s.head = Some(1);
    let g = GitGraphviz::new(s, &Vec::new(), selection("b"), Some("https://github.com/o/r".to_string()), None, Theme::Dark);
    let graph = g.condense(g.collect_refs().unwrap(), &Vec::new(), &Vec::new()).unwrap();
    let info = RepoInfo { name: "r".to_string(), head: None };
    let dot = g.generate_dot_at(&graph, &vec![edge_record(0)], &info, "line", 100);
    assert!(dot.contains(&format!("URL=\"https://github.com/o/r/compare/{}...{}\"", id(0), id(1))));
    assert!(dot.contains("splines=line,"));
    assert!(dot.contains("color=\"#B0B0B0\"]"));
}

#[test]
fn most_files_is_at_least_one() {
    let mut s = snapshot(row(2));
    s.local = vec![branch("main", 1)];
    s.head = Some(1);
    let g = viz(s, selection("b"));
    let graph = g.condense(g.collect_refs().unwrap(), &Vec::new(), &Vec::new()).unwrap();
    assert_eq!(g.max_file_count(&graph, &Vec::new()), 1);
    assert_eq!(g.max_file_count(&graph, &vec![edge_record(0)]), 1);
    assert_eq!(g.max_file_count(&graph, &vec![edge_record(7), edge_record(9)]), 7);
}

#[test]
fn script_goes_before_the_end_of_the_image() {
    let svg = "<svg><text></svg></text></svg>\n";
    let out = enhance_svg(svg, Some("https://x/\"y\\"), None);
    assert!(out.starts_with("<svg><text></svg></text><script type=\"text/javascript\">"));
    assert!(out.ends_with("</script>\n</svg>\n"));
    assert!(out.contains("var GGV_FORGE_URL = \"https://x/\\\"y\\\\\";"));
    assert!(out.contains("var GGV_WS_URL = null;"));
    let out = enhance_svg("no image", None, Some("http://[::1]:1"));
    assert!(out.starts_with("no image<script"));
    assert!(out.contains("var GGV_FORGE_URL = null;"));
    assert!(out.contains("var GGV_WS_URL = \"http://[::1]:1\";"));
}
