//! The edges of a graph: the commits and the files that each stands for, and its DOT attributes.

use vstd::prelude::*;

use crate::escape;
use crate::escape::{dot_escape, tooltip_escape};
use crate::number;
use crate::number::{count_text, push_hex_byte};
use crate::search;
use crate::search::joined;
use crate::text;
use crate::text::{push_filled, take_chars};
use crate::utils;
use crate::utils::time_ago_at;

verus! {

/// How many commits of an edge are counted one by one.
pub const MAX_WALK: usize = 2000;

/// How many files of an edge are listed.
pub const MAX_FILES: usize = 30;

/// A step of the walk over the commits that an edge stands for.
#[derive(Debug)]
pub enum PathStep {
    /// The walk broke off here.
    Failed,
    /// The commit was counted, but not read.
    Unread,
    Commit { id: String, summary: String, author: String, seconds: i64 },
}

/// A line of the list of commits: short hash, summary, author and age.
#[derive(Debug)]
pub struct PathLine {
    pub hash: String,
    pub message: String,
    pub author: String,
    pub when: String,
}

/// What a line of the list of commits holds.
#[verifier::ext_equal]
pub struct PathLineView {
    pub hash: Seq<char>,
    pub message: Seq<char>,
    pub author: Seq<char>,
    pub when: Seq<char>,
}

impl View for PathLine {
    type V = PathLineView;

    open spec fn view(&self) -> PathLineView {
        PathLineView {
            hash: self.hash@,
            message: self.message@,
            author: self.author@,
            when: self.when@,
        }
    }
}

/// What the lines of a list hold.
pub open spec fn line_views(v: Seq<PathLine>) -> Seq<PathLineView> {
    Seq::new(v.len(), |i: int| v[i]@)
}

/// How many steps the walk makes before it breaks off or ends.
pub open spec fn walk_len(steps: Seq<PathStep>) -> nat
    decreases steps.len(),
{
    if steps.len() == 0 || steps[0] is Failed {
        0
    } else {
        1 + walk_len(steps.drop_first())
    }
}

/// How many commits are counted: one more than `MAX_WALK` where there are too many.
pub open spec fn path_total(steps: Seq<PathStep>) -> nat {
    if walk_len(steps) > MAX_WALK {
        (MAX_WALK + 1) as nat
    } else {
        walk_len(steps)
    }
}

/// The line of a commit.
pub open spec fn path_line(step: PathStep, now: i64) -> Option<PathLineView> {
    match step {
        PathStep::Commit { id, summary, author, seconds } => Some(
            PathLineView {
                hash: text::first_chars(id@, 7),
                message: summary@,
                author: author@,
                when: utils::age_text(now.wrapping_sub(seconds) as int),
            },
        ),
        _ => None,
    }
}

/// The lines of the first `max` commits that were read.
pub open spec fn sample(steps: Seq<PathStep>, max: nat, now: i64) -> Seq<PathLineView>
    decreases steps.len(),
{
    if steps.len() == 0 {
        seq![]
    } else {
        let before = sample(steps.drop_last(), max, now);
        match path_line(steps.last(), now) {
            Some(line) => if before.len() < max {
                before.push(line)
            } else {
                before
            },
            None => before,
        }
    }
}

/// The line that stands for the commits left out.
pub open spec fn rest_line(total: nat) -> PathLineView {
    PathLineView {
        hash: "..."@,
        message: if total > MAX_WALK {
            "("@ + number::decimal(MAX_WALK as nat) + "+ commits, truncated)"@
        } else {
            "(truncated)"@
        },
        author: seq![],
        when: seq![],
    }
}

/// The list of the commits that an edge stands for.
pub open spec fn path_lines(steps: Seq<PathStep>, max: nat, now: i64) -> Seq<PathLineView> {
    let total = path_total(steps);
    let walked = if total > MAX_WALK {
        MAX_WALK as int
    } else {
        total as int
    };
    let lines = sample(steps.take(walked), max, now);
    if total > max {
        lines.push(rest_line(total))
    } else {
        lines
    }
}

proof fn lemma_walk_len(steps: Seq<PathStep>, n: int)
    requires
        0 <= n <= steps.len(),
        forall|i: int| 0 <= i < n ==> !(#[trigger] steps[i] is Failed),
    ensures
        walk_len(steps) >= n,
        n < steps.len() && steps[n] is Failed ==> walk_len(steps) == n,
        n == steps.len() ==> walk_len(steps) == n,
        walk_len(steps) <= steps.len(),
    decreases steps.len(),
{
    let rest = steps.drop_first();
    if steps.len() > 0 {
        assert(forall|i: int| 0 <= i < rest.len() ==> rest[i] == steps[i + 1]);
        if n > 0 {
            assert(!(steps[0] is Failed));
            lemma_walk_len(rest, n - 1);
        } else if !(steps[0] is Failed) {
            lemma_walk_len(rest, 0);
        }
    }
}

/// How many of the first `n` steps read a commit.
pub open spec fn reads(steps: Seq<PathStep>, n: int) -> nat
    decreases n,
{
    if n <= 0 {
        0
    } else {
        reads(steps, n - 1) + if steps[n - 1] is Commit {
            1nat
        } else {
            0nat
        }
    }
}

proof fn lemma_sample(steps: Seq<PathStep>, max: nat, now: i64, n: int)
    requires
        0 <= n <= steps.len(),
    ensures
        sample(steps.take(n), max, now).len() == if reads(steps, n) < max {
            reads(steps, n)
        } else {
            max
        },
    decreases n,
{
    if n > 0 {
        let first = steps.take(n);
        assert(first.drop_last() =~= steps.take(n - 1));
        assert(first.last() == steps[n - 1]);
        lemma_sample(steps, max, now, n - 1);
    }
}

proof fn lemma_sample_at(steps: Seq<PathStep>, max: nat, now: i64, n: int, i: int)
    requires
        0 <= i < n <= steps.len(),
        steps[i] is Commit,
        reads(steps, i) < max,
    ensures
        reads(steps, i) < sample(steps.take(n), max, now).len(),
        Some(sample(steps.take(n), max, now)[reads(steps, i) as int]) == path_line(steps[i], now),
    decreases n,
{
    let first = steps.take(n);
    assert(first.drop_last() =~= steps.take(n - 1));
    assert(first.last() == steps[n - 1]);
    lemma_sample(steps, max, now, n - 1);
    if i < n - 1 {
        lemma_sample_at(steps, max, now, n - 1, i);
    }
}

/// The list names the newest commits: the one that the walk reads when it has read `k` others has
/// line `k`, as long as `k` is less than `max`, with the first seven characters of its id, its
/// summary, its author and its age.
pub proof fn law_list_names_the_newest(steps: Seq<PathStep>, max: nat, now: i64, i: int)
    requires
        0 <= i < steps.len(),
        i < 2000,
        forall|j: int| 0 <= j <= i ==> !(#[trigger] steps[j] is Failed),
        reads(steps, i) < max,
    ensures
        match steps[i] {
            PathStep::Commit { id, summary, author, seconds } => {
                let lines = path_lines(steps, max, now);
                let line = lines[reads(steps, i) as int];
                &&& reads(steps, i) < lines.len()
                &&& line.hash == if id@.len() > 7 {
                    id@.take(7)
                } else {
                    id@
                }
                &&& line.message == summary@
                &&& line.author == author@
                &&& i64::MIN <= now - seconds <= i64::MAX ==> line.when == utils::age_text(
                    now - seconds,
                )
            },
            _ => true,
        },
{
    lemma_walk_len(steps, i + 1);
    let walked = if path_total(steps) > MAX_WALK {
        MAX_WALK as int
    } else {
        path_total(steps) as int
    };
    if steps[i] is Commit {
        lemma_walk_len(steps, 0);
        lemma_sample_at(steps, max, now, walked, i);
    }
}

/// Where the walk makes `n` steps before it breaks off or ends, they are counted up to two
/// thousand, and more than that as one more. The list has a line for each commit among them that
/// was read, at most `max`, and where more than `max` were counted a last line that says so.
pub proof fn law_list_is_complete(steps: Seq<PathStep>, max: nat, now: i64, n: int)
    requires
        0 <= n <= steps.len(),
        forall|j: int| 0 <= j < n ==> !(#[trigger] steps[j] is Failed),
        n == steps.len() || steps[n] is Failed,
    ensures
        ({
            let counted = if n > 2000 {
                2001
            } else {
                n
            };
            let read = reads(
                steps,
                if n > 2000 {
                    2000
                } else {
                    n
                },
            );
            let lines = path_lines(steps, max, now);
            &&& path_total(steps) == counted
            &&& lines.len() == (if read < max {
                read
            } else {
                max
            }) + (if counted > max {
                1nat
            } else {
                0nat
            })
            &&& counted > max ==> {
                let rest = lines.last();
                &&& rest.hash == "..."@
                &&& rest.author == ""@
                &&& rest.when == ""@
                &&& n <= 2000 ==> rest.message == "(truncated)"@
                &&& n > 2000 ==> rest.message == "("@ + number::decimal(2000)
                    + "+ commits, truncated)"@
            }
        }),
{
    lemma_walk_len(steps, n);
    lemma_sample(
        steps,
        max,
        now,
        if n > 2000 {
            2000
        } else {
            n
        },
    );
    reveal_strlit("");
    assert(""@ =~= Seq::<char>::empty());
}

/// The commits that an edge stands for, at most `max` of them with a line each, and how many they
/// are.
pub fn collect_path_commits_with_count(steps: &Vec<PathStep>, max: usize, now: i64) -> (r: (
    Vec<PathLine>,
    usize,
))
    ensures
        line_views(r.0@) == path_lines(steps@, max as nat, now),
        r.1 == path_total(steps@),
{
    let mut total: usize = 0;
    let mut lines: Vec<PathLine> = Vec::new();
    let mut going = true;
    assert(steps@.take(0) =~= seq![]);
    assert(line_views(lines@) =~= seq![]);
    while going && total < steps.len() && total < MAX_WALK
        invariant
            total <= steps@.len(),
            total <= MAX_WALK,
            forall|i: int| 0 <= i < total ==> !(#[trigger] steps@[i] is Failed),
            !going ==> total < steps@.len() && total < MAX_WALK && steps@[total as int] is Failed,
            line_views(lines@) == sample(steps@.take(total as int), max as nat, now),
        decreases
            steps@.len() - total,
            if going {
                1int
            } else {
                0int
            },
    {
        let ghost before = line_views(lines@);
        assert(steps@.take(total + 1).drop_last() =~= steps@.take(total as int));
        assert(steps@.take(total + 1).last() == steps@[total as int]);
        assert(before.len() == lines@.len());
        match &steps[total] {
            PathStep::Failed => {
                going = false;
            },
            PathStep::Unread => {
                total = total + 1;
            },
            PathStep::Commit { id, summary, author, seconds } => {
                if lines.len() < max {
                    let line = PathLine {
                        hash: take_chars(id.as_str(), 7),
                        message: summary.clone(),
                        author: author.clone(),
                        when: time_ago_at(now, *seconds),
                    };
                    let ghost v = line@;
                    assert(Some(v) == path_line(steps@[total as int], now));
                    lines.push(line);
                    assert(line_views(lines@) =~= before.push(v));
                }
                total = total + 1;
            },
        }
    }
    proof {
        lemma_walk_len(steps@, total as int);
    }
    if going && total == MAX_WALK && total < steps.len() {
        match &steps[total] {
            PathStep::Failed => {},
            _ => {
                proof {
                    lemma_walk_len(steps@, total + 1);
                }
                total = total + 1;
            },
        }
    }
    assert(total == path_total(steps@));
    if total > max {
        let ghost before = line_views(lines@);
        let message = if total > MAX_WALK {
            let mut label = "(".to_owned();
            let n = count_text(MAX_WALK);
            label.append(n.as_str());
            label.append("+ commits, truncated)");
            label
        } else {
            "(truncated)".to_owned()
        };
        let line = PathLine {
            hash: "...".to_owned(),
            message,
            author: String::new(),
            when: String::new(),
        };
        assert(line@ =~= rest_line(total as nat));
        let ghost v = line@;
        lines.push(line);
        assert(line_views(lines@) =~= before.push(v));
    }
    (lines, total)
}

// ---------------------------------------------------------------------------------------------
// Tooltip and files
// ---------------------------------------------------------------------------------------------

/// A line of a tooltip.
pub open spec fn tooltip_line(l: PathLineView) -> Seq<char> {
    l.hash + ": "@ + l.message + " ("@ + l.author + ", "@ + l.when + ")"@
}

/// The lines of a tooltip.
pub open spec fn tooltip_lines(ls: Seq<PathLineView>) -> Seq<Seq<char>> {
    Seq::new(ls.len(), |i: int| tooltip_line(ls[i]))
}

/// The tooltip of an edge, if it stands for any commits.
pub open spec fn tooltip_text(ls: Seq<PathLineView>) -> Option<Seq<char>> {
    if ls.len() == 0 {
        None
    } else {
        Some(search::join(tooltip_lines(ls), "\n"@))
    }
}

/// The tooltip of an edge: its commits, one on each line.
pub fn build_tooltip(path_commits: &Vec<PathLine>) -> (r: Option<String>)
    ensures
        text::opt_view(r) == tooltip_text(line_views(path_commits@)),
{
    let ghost ls = line_views(path_commits@);
    if path_commits.len() == 0 {
        return None;
    }
    let mut out: Vec<String> = Vec::new();
    let mut i: usize = 0;
    while i < path_commits.len()
        invariant
            ls == line_views(path_commits@),
            i <= path_commits@.len(),
            text::views(out@) =~= tooltip_lines(ls).take(i as int),
        decreases path_commits@.len() - i,
    {
        let ghost before = text::views(out@);
        let l = &path_commits[i];
        let mut line = l.hash.clone();
        line.append(": ");
        line.append(l.message.as_str());
        line.append(" (");
        line.append(l.author.as_str());
        line.append(", ");
        line.append(l.when.as_str());
        line.append(")");
        let ghost v = line@;
        out.push(line);
        assert(v == tooltip_line(ls[i as int]));
        assert(text::views(out@) =~= before.push(v));
        i = i + 1;
    }
    assert(tooltip_lines(ls).take(i as int) =~= tooltip_lines(ls));
    Some(joined(&out, "\n"))
}

/// The list of the files that change along an edge. Of many only the first are named.
pub open spec fn file_list(files: Seq<Seq<char>>) -> Option<Seq<char>> {
    if files.len() == 0 {
        None
    } else if files.len() > MAX_FILES {
        Some(
            search::join(files.take(MAX_FILES as int), "|"@) + "|... +"@ + number::decimal(
                (files.len() - MAX_FILES) as nat,
            ) + " more"@,
        )
    } else {
        Some(search::join(files, "|"@))
    }
}

/// The list of the files that change along an edge.
pub fn list_files(files: &Vec<String>) -> (r: Option<String>)
    ensures
        text::opt_view(r) == file_list(text::views(files@)),
{
    let n = files.len();
    if n == 0 {
        return None;
    }
    if n <= MAX_FILES {
        return Some(joined(files, "|"));
    }
    let mut first: Vec<String> = Vec::new();
    let mut i: usize = 0;
    while i < MAX_FILES
        invariant
            i <= MAX_FILES < n,
            n == files@.len(),
            text::views(first@) =~= text::views(files@).take(i as int),
        decreases MAX_FILES - i,
    {
        let ghost before = text::views(first@);
        first.push(files[i].clone());
        assert(text::views(first@) =~= before.push(files@[i as int]@));
        i = i + 1;
    }
    let mut out = joined(&first, "|");
    out.append("|... +");
    let more = count_text(n - MAX_FILES);
    out.append(more.as_str());
    out.append(" more");
    Some(out)
}

// ---------------------------------------------------------------------------------------------
// Width and color
// ---------------------------------------------------------------------------------------------

/// The width of an edge, in tenths of a point: 1 where no line changes, else what the number of
/// lines scales to, between 0.5 and 8.
pub open spec fn edge_width(line_count: nat, scaled: u32) -> u32 {
    if line_count == 0 {
        10
    } else if scaled < 5 {
        5
    } else if scaled > 80 {
        80
    } else {
        scaled
    }
}

/// The width of an edge, in tenths of a point. `scaled` is what its number of changed lines
/// scales to.
pub fn edge_penwidth(line_count: usize, scaled: u32) -> (r: u32)
    ensures
        r == edge_width(line_count as nat, scaled),
{
    if line_count == 0 {
        10
    } else if scaled < 5 {
        5
    } else if scaled > 80 {
        80
    } else {
        scaled
    }
}

/// A number of tenths, with one digit behind the point.
pub open spec fn tenths_text(tenths: nat) -> Seq<char> {
    number::decimal(tenths / 10) + "."@ + number::decimal(tenths % 10)
}

/// A color as DOT writes it.
pub open spec fn rgb_text(rgb: (u8, u8, u8)) -> Seq<char> {
    "#"@ + number::hex_byte(rgb.0) + number::hex_byte(rgb.1) + number::hex_byte(rgb.2)
}

/// The color of an edge: grey where no file changes, else the color of its heat.
pub open spec fn heat_color(file_count: nat, max_file_count: nat, heat: (u8, u8, u8)) -> Seq<char> {
    if max_file_count == 0 || file_count == 0 {
        "#B0B0B0"@
    } else {
        rgb_text(heat)
    }
}

/// The color of an edge. `heat` is the color between grey, orange and red that its number of
/// changed files gives among those of all edges.
pub fn edge_heatmap_color(file_count: usize, max_file_count: usize, heat: (u8, u8, u8)) -> (r:
    String)
    ensures
        r@ == heat_color(file_count as nat, max_file_count as nat, heat),
{
    if max_file_count == 0 || file_count == 0 {
        return "#B0B0B0".to_owned();
    }
    let mut out = "#".to_owned();
    push_hex_byte(&mut out, heat.0);
    push_hex_byte(&mut out, heat.1);
    push_hex_byte(&mut out, heat.2);
    out
}

// ---------------------------------------------------------------------------------------------
// Attributes
// ---------------------------------------------------------------------------------------------

/// What an edge stands for.
#[derive(Debug)]
pub struct EdgeRecord {
    /// The commits between its ends, newest first.
    pub steps: Vec<PathStep>,
    /// The files that change.
    pub files: Vec<String>,
    /// The number of lines that change.
    pub lines: usize,
    /// The width that `lines` scales to, in tenths of a point.
    pub width: u32,
    /// The color of its heat.
    pub heat: (u8, u8, u8),
}

/// The URL attribute of an edge.
pub open spec fn url_part(url: Option<Seq<char>>) -> Seq<char> {
    match url {
        Some(u) => "URL=\""@ + u + "\", target=\"_blank\""@,
        None => seq![],
    }
}

/// The tooltip attribute of an edge.
pub open spec fn tooltip_part(tooltip: Option<Seq<char>>) -> Seq<char> {
    match tooltip {
        Some(t) => "tooltip=\""@ + escape::tooltip_escaped(t) + "\""@,
        None => seq![],
    }
}

/// The label of an edge: how many commits it stands for.
pub open spec fn label_part(count: nat) -> Seq<char> {
    if count > 0 {
        "xlabel=\""@ + number::decimal(count) + "\""@
    } else {
        seq![]
    }
}

/// The id of an edge, which carries its list of files.
pub open spec fn files_part(files: Option<Seq<char>>) -> Seq<char> {
    match files {
        Some(f) => "id=\"files:"@ + escape::dot_escaped(f) + "\""@,
        None => seq![],
    }
}

/// The DOT attributes of an edge.
pub open spec fn edge_attrs(
    url: Option<Seq<char>>,
    tooltip: Option<Seq<char>>,
    count: nat,
    files: Option<Seq<char>>,
    width: u32,
    color: Seq<char>,
) -> Seq<char> {
    " ["@ + search::join(
        text::filled(
            seq![
                url_part(url),
                tooltip_part(tooltip),
                label_part(count),
                files_part(files),
                "penwidth="@ + tenths_text(width as nat),
                "color=\""@ + color + "\""@,
            ],
        ),
        ", "@,
    ) + "]"@
}

/// The DOT attributes of an edge: where it leads to, which commits and files it stands for, its
/// width and its color.
pub fn build_edge_attrs(
    url: Option<&str>,
    tooltip: Option<&str>,
    count: usize,
    files: Option<&str>,
    width: u32,
    color: &str,
) -> (r: String)
    ensures
        r@ == edge_attrs(
            text::opt_str_view(url),
            text::opt_str_view(tooltip),
            count as nat,
            text::opt_str_view(files),
            width,
            color@,
        ),
{
    let mut parts: Vec<String> = Vec::new();
    let ghost a: Seq<Seq<char>> = seq![];
    assert(text::views(parts@) =~= seq![]);
    let part = match url {
        Some(u) => {
            let mut s = "URL=\"".to_owned();
            s.append(u);
            s.append("\", target=\"_blank\"");
            s
        },
        None => String::new(),
    };
    let ghost p1 = part@;
    assert(p1 =~= url_part(text::opt_str_view(url)));
    push_filled(&mut parts, part, Ghost(a));
    let part = match tooltip {
        Some(t) => {
            let mut s = "tooltip=\"".to_owned();
            let escaped = tooltip_escape(t);
            s.append(escaped.as_str());
            s.append("\"");
            s
        },
        None => String::new(),
    };
    let ghost p2 = part@;
    assert(p2 =~= tooltip_part(text::opt_str_view(tooltip)));
    push_filled(&mut parts, part, Ghost(a.push(p1)));
    let part = if count > 0 {
        let mut s = "xlabel=\"".to_owned();
        let n = count_text(count);
        s.append(n.as_str());
        s.append("\"");
        s
    } else {
        String::new()
    };
    let ghost p3 = part@;
    assert(p3 =~= label_part(count as nat));
    push_filled(&mut parts, part, Ghost(a.push(p1).push(p2)));
    let part = match files {
        Some(f) => {
            let mut s = "id=\"files:".to_owned();
            let escaped = dot_escape(f);
            s.append(escaped.as_str());
            s.append("\"");
            s
        },
        None => String::new(),
    };
    let ghost p4 = part@;
    assert(p4 =~= files_part(text::opt_str_view(files)));
    push_filled(&mut parts, part, Ghost(a.push(p1).push(p2).push(p3)));
    let mut part = "penwidth=".to_owned();
    let whole = count_text((width / 10) as usize);
    let tenth = count_text((width % 10) as usize);
    part.append(whole.as_str());
    part.append(".");
    part.append(tenth.as_str());
    let ghost p5 = part@;
    assert(p5 =~= "penwidth="@ + tenths_text(width as nat));
    push_filled(&mut parts, part, Ghost(a.push(p1).push(p2).push(p3).push(p4)));
    let mut part = "color=\"".to_owned();
    part.append(color);
    part.append("\"");
    let ghost p6 = part@;
    push_filled(&mut parts, part, Ghost(a.push(p1).push(p2).push(p3).push(p4).push(p5)));
    assert(a.push(p1).push(p2).push(p3).push(p4).push(p5).push(p6) =~= seq![p1, p2, p3, p4, p5, p6]);
    let mut out = " [".to_owned();
    let list = joined(&parts, ", ");
    out.append(list.as_str());
    out.append("]");
    out
}

} // verus!
