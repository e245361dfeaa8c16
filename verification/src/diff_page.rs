//! The pages that show the commits and the differences of a range.

use vstd::prelude::*;

use crate::cards;
use crate::cards::{batch_file_counts, render_commit_cards, write_count_label};
use crate::escape;
use crate::escape::{html_escape, to_json_string};
use crate::html_page;
use crate::html_page::{color_list, short_sha};
use crate::job;
use crate::job::{concat, get_printed, has_answer, Answer, AskView, Step, StepView};
use crate::lines;
use crate::lines::split_lines;
use crate::number;
use crate::number::count_text;
use crate::pages;
use crate::palette;
use crate::range;
use crate::range::{
    ask_ancestor, ask_diff, ask_log, ask_names, ask_short_files, collect_cards, order,
    resolve_diff_base,
};
use crate::search;
use crate::search::has_text;
use crate::template;
use crate::template::fill;
use crate::text;
use crate::theme::Theme;

verus! {

/// What a page of differences is made of.
#[derive(Debug)]
pub struct DiffRequest<'a> {
    pub repo: &'a str,
    pub sha1: &'a str,
    pub sha2: &'a str,
    pub theme: Theme,
    pub paths: &'a Vec<String>,
    /// The filter that the path patterns come from.
    pub filter: &'a str,
    /// How many files are shown at most; with 0 all.
    pub max_files: usize,
    pub gitlab_url: Option<&'a str>,
    /// The script that draws differences.
    pub js: &'a str,
    /// Its style sheet.
    pub css: &'a str,
}

/// What the request for a page of differences holds.
#[verifier::ext_equal]
pub struct DiffView {
    pub repo: Seq<char>,
    pub sha1: Seq<char>,
    pub sha2: Seq<char>,
    pub theme: Theme,
    pub paths: Seq<Seq<char>>,
    pub filter: Seq<char>,
    pub max_files: usize,
    pub gitlab_url: Option<Seq<char>>,
    pub js: Seq<char>,
    pub css: Seq<char>,
}

impl<'a> View for DiffRequest<'a> {
    type V = DiffView;

    open spec fn view(&self) -> DiffView {
        DiffView {
            repo: self.repo@,
            sha1: self.sha1@,
            sha2: self.sha2@,
            theme: self.theme,
            paths: text::views(self.paths@),
            filter: self.filter@,
            max_files: self.max_files,
            gitlab_url: text::opt_str_view(self.gitlab_url),
            js: self.js@,
            css: self.css@,
        }
    }
}

// ---------------------------------------------------------------------------------------------
// Order and number of files
// ---------------------------------------------------------------------------------------------

/// The ends of a range in order, and the number of files that differ, where that is too large.
#[derive(Debug)]
pub struct RangeHead<'a> {
    pub older: &'a str,
    pub newer: &'a str,
    pub too_many: Option<usize>,
}

/// What the ends of a range hold.
#[verifier::ext_equal]
pub struct RangeHeadView {
    pub older: Seq<char>,
    pub newer: Seq<char>,
    pub too_many: Option<nat>,
}

impl<'a> View for RangeHead<'a> {
    type V = RangeHeadView;

    open spec fn view(&self) -> RangeHeadView {
        RangeHeadView {
            older: self.older@,
            newer: self.newer@,
            too_many: match self.too_many {
                Some(n) => Some(n as nat),
                None => None,
            },
        }
    }
}

/// The number of files that differ, where it is above the limit.
pub open spec fn above_limit(answer: Answer, max: nat) -> Option<nat> {
    let n = lines::lines(job::printed(answer)).len();
    if n > max {
        Some(n)
    } else {
        None
    }
}

/// The ends of a range in order, and the number of files that differ, where that is too large.
/// Without a limit the files are not counted.
pub open spec fn head_step(q: DiffView, answers: Seq<Answer>, at: nat) -> StepView<
    RangeHeadView,
> {
    if at >= answers.len() {
        StepView::Ask(AskView::GitStatus(range::ancestor_args(q.repo, q.sha1, q.sha2)))
    } else {
        let ends = range::ordered(q.sha1, q.sha2, answers[at as int]);
        if q.max_files == 0 {
            StepView::Done(RangeHeadView { older: ends.0, newer: ends.1, too_many: None }, at + 1)
        } else if at + 1 >= answers.len() {
            StepView::Ask(
                AskView::GitOutput(
                    range::names_args(q.repo, ends.0, ends.1, q.paths),
                ),
            )
        } else {
            StepView::Done(
                RangeHeadView {
                    older: ends.0,
                    newer: ends.1,
                    too_many: above_limit(answers[(at + 1) as int], q.max_files as nat),
                },
                at + 2,
            )
        }
    }
}

/// What a step that yields the ends of a range holds.
pub open spec fn head_view(s: Step<RangeHead>) -> StepView<RangeHeadView> {
    match s {
        Step::Ask(a) => StepView::Ask(a@),
        Step::Done(t, n) => StepView::Done(t@, n as nat),
    }
}

/// The ends of a range in order, and the number of files that differ, where that is too large.
fn find_head<'a>(q: &DiffRequest<'a>, answers: &Vec<Answer>, at: usize) -> (r: Step<RangeHead<'a>>)
    ensures
        head_view(r) == head_step(q@, answers@, at as nat),
{
    if !has_answer(answers, at, 0) {
        return Step::Ask(ask_ancestor(q.repo, q.sha1, q.sha2));
    }
    let (older, newer) = order(q.sha1, q.sha2, &answers[at]);
    if q.max_files == 0 {
        return Step::Done(RangeHead { older, newer, too_many: None }, at + 1);
    }
    if !has_answer(answers, at, 1) {
        return Step::Ask(ask_names(q.repo, older, newer, q.paths));
    }
    let output = get_printed(&answers[at + 1]);
    let names = split_lines(output.as_str());
    let n = names.len();
    assert(n == text::views(names@).len());
    let too_many = if n > q.max_files {
        Some(n)
    } else {
        None
    };
    Step::Done(RangeHead { older, newer, too_many }, at + 2)
}

// ---------------------------------------------------------------------------------------------
// The section below a summary
// ---------------------------------------------------------------------------------------------

/// The commits and the differences of a range, to be put below a summary.
pub open spec fn section_html(q: DiffView, diff: Seq<char>, cards: (Seq<char>, nat)) -> Seq<
    char,
> {
    template::expand(
        pages::DIFF_SECTION@,
        html_page::color_bindings(palette::palette(q.theme)).push(("css"@, q.css)).push(
            ("js"@, q.js),
        ).push(("s1"@, html_page::short(q.sha1))).push(("s2"@, html_page::short(q.sha2))).push(
            ("diff_json"@, escape::json_string(diff)),
        ).push(("filter_json"@, escape::json_string(q.filter))).push(
            ("commit_cards"@, cards.0),
        ).push(("count_label"@, cards::count_label(cards.1))),
    )
}

/// The commits and the differences of a range, to be put below a summary.
fn write_section(q: &DiffRequest, diff: &str, cards: &str, count: usize) -> (r: String)
    ensures
        r@ == section_html(q@, diff@, (cards@, count as nat)),
{
    let s1 = short_sha(q.sha1);
    let s2 = short_sha(q.sha2);
    let diff_json = to_json_string(diff);
    let filter_json = to_json_string(q.filter);
    let label = write_count_label(count);
    let mut b: Vec<(&str, &str)> = color_list(q.theme);
    let ghost colors = template::binding_views(b@);
    b.push(("css", q.css));
    b.push(("js", q.js));
    b.push(("s1", s1.as_str()));
    b.push(("s2", s2.as_str()));
    b.push(("diff_json", diff_json.as_str()));
    b.push(("filter_json", filter_json.as_str()));
    b.push(("commit_cards", cards));
    b.push(("count_label", label.as_str()));
    assert(template::binding_views(b@) =~= colors.push(("css"@, q.css@)).push(
        ("js"@, q.js@),
    ).push(("s1"@, s1@)).push(("s2"@, s2@)).push(("diff_json"@, diff_json@)).push(
        ("filter_json"@, filter_json@),
    ).push(("commit_cards"@, cards@)).push(("count_label"@, label@)));
    fill(pages::DIFF_SECTION, &b)
}

/// Why there is no section: too many files differ.
pub open spec fn too_many_text(n: nat, max: nat) -> Seq<char> {
    "Too many changed files ("@ + number::decimal(n) + " > "@ + number::decimal(max)
        + "); diff suppressed"@
}

/// The section below a summary, or why there is none.
pub open spec fn section_step(q: DiffView, answers: Seq<Answer>, at: nat) -> StepView<
    Result<Seq<char>, Seq<char>>,
> {
    match head_step(q, answers, at) {
        StepView::Ask(ask) => StepView::Ask(ask),
        StepView::Done(head, n) => match head.too_many {
            Some(files) => StepView::Done(Err(too_many_text(files, q.max_files as nat)), n),
            None => if n >= answers.len() {
                StepView::Ask(
                    AskView::GitOutput(
                        range::diff_args(
                            q.repo,
                            head.older,
                            head.newer,
                            q.paths,
                        ),
                    ),
                )
            } else {
                match answers[n as int].error {
                    Some(e) => StepView::Done(Err("git diff failed: "@ + e@), n + 1),
                    None => match range::cards_step(
                        q.repo,
                        q.sha1,
                        q.sha2,
                        head.older,
                        answers,
                        n + 1,
                    ) {
                        StepView::Ask(ask) => StepView::Ask(ask),
                        StepView::Done(cards, m) => StepView::Done(
                            Ok(section_html(q, answers[n as int].stdout@, cards)),
                            m,
                        ),
                    },
                }
            },
        },
    }
}

/// The section below a summary, or why there is none.
pub fn diff2html_section(q: &DiffRequest, answers: &Vec<Answer>, at: usize) -> (r: Step<
    Result<String, String>,
>)
    ensures
        job::result_step(r) == section_step(q@, answers@, at as nat),
{
    let (head, n) = match find_head(q, answers, at) {
        Step::Ask(ask) => {
            return Step::Ask(ask);
        },
        Step::Done(head, n) => (head, n),
    };
    match head.too_many {
        Some(files) => {
            let mut out = "Too many changed files (".to_owned();
            let count = count_text(files);
            out.append(count.as_str());
            out.append(" > ");
            let max = count_text(q.max_files);
            out.append(max.as_str());
            out.append("); diff suppressed");
            return Step::Done(Err(out), n);
        },
        None => {},
    }
    if !has_answer(answers, n, 0) {
        return Step::Ask(ask_diff(q.repo, head.older, head.newer, q.paths));
    }
    match &answers[n].error {
        Some(e) => {
            return Step::Done(Err(concat("git diff failed: ", e.as_str())), n + 1);
        },
        None => {},
    }
    match collect_cards(q.repo, q.sha1, q.sha2, head.older, answers, n + 1) {
        Step::Ask(ask) => Step::Ask(ask),
        Step::Done((cards, count), m) => Step::Done(
            Ok(write_section(q, answers[n].stdout.as_str(), cards.as_str(), count)),
            m,
        ),
    }
}

// ---------------------------------------------------------------------------------------------
// The page
// ---------------------------------------------------------------------------------------------

/// The link to the forge in the bar above the differences.
pub open spec fn forge_link(q: DiffView) -> Seq<char> {
    match q.gitlab_url {
        Some(base) => template::expand(
            pages::FORGE_LINK@,
            seq![
                ("base"@, base),
                (
                    "compare_segment"@,
                    if search::contains_text(base, "github.com"@) {
                        "/compare/"@
                    } else {
                        "/-/compare/"@
                    },
                ),
                ("sha1"@, q.sha1),
                ("sha2"@, q.sha2),
            ],
        ),
        None => seq![],
    }
}

/// The bar above the differences.
pub open spec fn filter_bar(q: DiffView) -> Seq<char> {
    template::expand(
        pages::FILTER_BAR@,
        seq![
            ("difftool_url"@, "/diff?from="@ + q.sha1 + "&to="@ + q.sha2),
            ("gitlab_link"@, forge_link(q)),
        ],
    )
}

/// The differences on a page.
pub open spec fn diff_part(q: DiffView, diff: Seq<char>) -> Seq<char> {
    template::expand(
        pages::DIFF_PART@,
        seq![
            ("js"@, q.js),
            ("diff_json"@, escape::json_string(diff)),
            ("filter_json"@, escape::json_string(q.filter)),
        ],
    )
}

/// What stands in place of the differences of too many files.
pub open spec fn suppressed_notice(files: nat, max: nat) -> Seq<char> {
    template::expand(
        pages::SUPPRESSED_NOTICE@,
        seq![("file_count"@, number::decimal(files)), ("max_diff_files"@, number::decimal(max))],
    )
}

/// The page of a range. Without differences to show it has a notice in their place, and no bar.
pub open spec fn diff_page(
    q: DiffView,
    too_many: Option<nat>,
    diff: Seq<char>,
    cards: (Seq<char>, nat),
) -> Seq<char> {
    template::expand(
        pages::DIFF_PAGE@,
        html_page::color_bindings(palette::palette(q.theme)).push(("css"@, q.css)).push(
            ("s1"@, html_page::short(q.sha1)),
        ).push(("s2"@, html_page::short(q.sha2))).push(
            (
                "diff_filter_bar"@,
                match too_many {
                    Some(files) => seq![],
                    None => filter_bar(q),
                },
            ),
        ).push(
            (
                "diff_section"@,
                match too_many {
                    Some(files) => suppressed_notice(files, q.max_files as nat),
                    None => diff_part(q, diff),
                },
            ),
        ).push(("commit_cards"@, cards.0)).push(("count_label"@, cards::count_label(cards.1))),
    )
}

/// The link to the forge in the bar above the differences.
fn write_forge_link(q: &DiffRequest) -> (r: String)
    ensures
        r@ == forge_link(q@),
{
    match q.gitlab_url {
        Some(base) => {
            let segment = if has_text(base, "github.com") {
                "/compare/"
            } else {
                "/-/compare/"
            };
            let b: Vec<(&str, &str)> = vec![
                ("base", base),
                ("compare_segment", segment),
                ("sha1", q.sha1),
                ("sha2", q.sha2),
            ];
            assert(template::binding_views(b@) =~= seq![
                ("base"@, base@),
                ("compare_segment"@, segment@),
                ("sha1"@, q.sha1@),
                ("sha2"@, q.sha2@),
            ]);
            fill(pages::FORGE_LINK, &b)
        },
        None => String::new(),
    }
}

/// The bar above the differences.
fn write_filter_bar(q: &DiffRequest) -> (r: String)
    ensures
        r@ == filter_bar(q@),
{
    let link = write_forge_link(q);
    let mut url = "/diff?from=".to_owned();
    url.append(q.sha1);
    url.append("&to=");
    url.append(q.sha2);
    let b: Vec<(&str, &str)> = vec![
        ("difftool_url", url.as_str()),
        ("gitlab_link", link.as_str()),
    ];
    assert(template::binding_views(b@) =~= seq![
        ("difftool_url"@, url@),
        ("gitlab_link"@, link@),
    ]);
    fill(pages::FILTER_BAR, &b)
}

/// The differences on a page.
fn write_diff_part(q: &DiffRequest, diff: &str) -> (r: String)
    ensures
        r@ == diff_part(q@, diff@),
{
    let diff_json = to_json_string(diff);
    let filter_json = to_json_string(q.filter);
    let b: Vec<(&str, &str)> = vec![
        ("js", q.js),
        ("diff_json", diff_json.as_str()),
        ("filter_json", filter_json.as_str()),
    ];
    assert(template::binding_views(b@) =~= seq![
        ("js"@, q.js@),
        ("diff_json"@, diff_json@),
        ("filter_json"@, filter_json@),
    ]);
    fill(pages::DIFF_PART, &b)
}

/// What stands in place of the differences of too many files.
fn write_notice(files: usize, max: usize) -> (r: String)
    ensures
        r@ == suppressed_notice(files as nat, max as nat),
{
    let count = count_text(files);
    let limit = count_text(max);
    let b: Vec<(&str, &str)> = vec![
        ("file_count", count.as_str()),
        ("max_diff_files", limit.as_str()),
    ];
    assert(template::binding_views(b@) =~= seq![
        ("file_count"@, count@),
        ("max_diff_files"@, limit@),
    ]);
    fill(pages::SUPPRESSED_NOTICE, &b)
}

/// The page of a range.
fn write_page(
    q: &DiffRequest,
    too_many: Option<usize>,
    diff: &str,
    cards: &str,
    count: usize,
) -> (r: String)
    ensures
        r@ == diff_page(
            q@,
            match too_many {
                Some(n) => Some(n as nat),
                None => None,
            },
            diff@,
            (cards@, count as nat),
        ),
{
    let s1 = short_sha(q.sha1);
    let s2 = short_sha(q.sha2);
    let label = write_count_label(count);
    let (bar, section) = match too_many {
        Some(files) => (String::new(), write_notice(files, q.max_files)),
        None => (write_filter_bar(q), write_diff_part(q, diff)),
    };
    assert(too_many is Some ==> bar@ =~= seq![]);
    let mut b: Vec<(&str, &str)> = color_list(q.theme);
    let ghost colors = template::binding_views(b@);
    b.push(("css", q.css));
    b.push(("s1", s1.as_str()));
    b.push(("s2", s2.as_str()));
    b.push(("diff_filter_bar", bar.as_str()));
    b.push(("diff_section", section.as_str()));
    b.push(("commit_cards", cards));
    b.push(("count_label", label.as_str()));
    assert(template::binding_views(b@) =~= colors.push(("css"@, q.css@)).push(("s1"@, s1@)).push(
        ("s2"@, s2@),
    ).push(("diff_filter_bar"@, bar@)).push(("diff_section"@, section@)).push(
        ("commit_cards"@, cards@),
    ).push(("count_label"@, label@)));
    fill(pages::DIFF_PAGE, &b)
}

/// The page of a range, or why there is none.
pub open spec fn page_step(q: DiffView, answers: Seq<Answer>, at: nat) -> StepView<
    Result<Seq<char>, Seq<char>>,
> {
    match head_step(q, answers, at) {
        StepView::Ask(ask) => StepView::Ask(ask),
        StepView::Done(head, n) => match head.too_many {
            Some(files) => rest_of_page_step(q, head, seq![], answers, n),
            None => if n >= answers.len() {
                StepView::Ask(
                    AskView::GitOutput(
                        range::diff_args(
                            q.repo,
                            head.older,
                            head.newer,
                            q.paths,
                        ),
                    ),
                )
            } else {
                match answers[n as int].error {
                    Some(e) => StepView::Done(Err("git diff failed: "@ + e@), n + 1),
                    None => rest_of_page_step(
                        q,
                        head,
                        answers[n as int].stdout@,
                        answers,
                        n + 1,
                    ),
                }
            },
        },
    }
}

/// The page of a range whose differences are known.
pub open spec fn rest_of_page_step(
    q: DiffView,
    head: RangeHeadView,
    diff: Seq<char>,
    answers: Seq<Answer>,
    at: nat,
) -> StepView<Result<Seq<char>, Seq<char>>> {
    match range::cards_step(q.repo, q.sha1, q.sha2, head.older, answers, at) {
        StepView::Ask(ask) => StepView::Ask(ask),
        StepView::Done(cards, m) => StepView::Done(
            Ok(diff_page(q, head.too_many, diff, cards)),
            m,
        ),
    }
}

/// The page of a range whose differences are known.
fn finish_page(
    q: &DiffRequest,
    head: &RangeHead,
    diff: &str,
    answers: &Vec<Answer>,
    at: usize,
) -> (r: Step<Result<String, String>>)
    ensures
        job::result_step(r) == rest_of_page_step(q@, head@, diff@, answers@, at as nat),
{
    match collect_cards(q.repo, q.sha1, q.sha2, head.older, answers, at) {
        Step::Ask(ask) => Step::Ask(ask),
        Step::Done((cards, count), m) => Step::Done(
            Ok(write_page(q, head.too_many, diff, cards.as_str(), count)),
            m,
        ),
    }
}

/// The page of a range, or why there is none.
pub fn run_diff2html(q: &DiffRequest, answers: &Vec<Answer>, at: usize) -> (r: Step<
    Result<String, String>,
>)
    ensures
        job::result_step(r) == page_step(q@, answers@, at as nat),
{
    let (head, n) = match find_head(q, answers, at) {
        Step::Ask(ask) => {
            return Step::Ask(ask);
        },
        Step::Done(head, n) => (head, n),
    };
    if head.too_many.is_some() {
        proof {
            reveal_strlit("");
            assert(""@ =~= seq![]);
        }
        return finish_page(q, &head, "", answers, n);
    }
    if !has_answer(answers, n, 0) {
        return Step::Ask(ask_diff(q.repo, head.older, head.newer, q.paths));
    }
    match &answers[n].error {
        Some(e) => Step::Done(Err(concat("git diff failed: ", e.as_str())), n + 1),
        None => finish_page(q, &head, answers[n].stdout.as_str(), answers, n + 1),
    }
}

// ---------------------------------------------------------------------------------------------
// The log
// ---------------------------------------------------------------------------------------------

/// The page with the commits of a range.
pub open spec fn log_page(
    sha1: Seq<char>,
    sha2: Seq<char>,
    cards: (Seq<char>, nat),
    theme: Theme,
) -> Seq<char> {
    template::expand(
        pages::LOG_PAGE@,
        html_page::color_bindings(palette::palette(theme)).push(("sha1"@, sha1)).push(
            ("sha2"@, sha2),
        ).push(("count_label"@, cards::count_label(cards.1))).push(("cards"@, cards.0)),
    )
}

/// The page with the commits of a log. `files` is the list of the files of each commit.
pub fn build_log_html(sha1: &str, sha2: &str, log_text: &str, files: &str, theme: Theme) -> (r: String)
    ensures
        r@ == log_page(
            sha1@,
            sha2@,
            cards::log_cards(cards::counts_in(lines::lines(files@)), log_text@),
            theme,
        ),
{
    let counts = batch_file_counts(files);
    let (cards, count) = render_commit_cards(&counts, log_text);
    let label = write_count_label(count);
    let mut b: Vec<(&str, &str)> = color_list(theme);
    let ghost colors = template::binding_views(b@);
    b.push(("sha1", sha1));
    b.push(("sha2", sha2));
    b.push(("count_label", label.as_str()));
    b.push(("cards", cards.as_str()));
    assert(template::binding_views(b@) =~= colors.push(("sha1"@, sha1@)).push(
        ("sha2"@, sha2@),
    ).push(("count_label"@, label@)).push(("cards"@, cards@)));
    fill(pages::LOG_PAGE, &b)
}

/// The page with the log of a range, or with what went wrong.
pub open spec fn log_step(
    repo: Seq<char>,
    a: Seq<char>,
    b: Seq<char>,
    theme: Theme,
    answers: Seq<Answer>,
    at: nat,
) -> StepView<Seq<char>> {
    match range::base_step(repo, a, b, answers, at) {
        StepView::Ask(ask) => StepView::Ask(ask),
        StepView::Done(Err(e), n) => StepView::Done(
            "<pre>Error resolving log base: "@ + escape::html_escaped(e) + "</pre>"@,
            n,
        ),
        StepView::Done(Ok(base), n) => if n >= answers.len() {
            StepView::Ask(AskView::GitOutput(range::log_args(repo, base, a, b)))
        } else {
            match answers[n as int].error {
                Some(e) => StepView::Done(
                    "<pre>Error running git log: "@ + escape::html_escaped(e@) + "</pre>"@,
                    n + 1,
                ),
                None => if n + 1 >= answers.len() {
                    StepView::Ask(
                        AskView::GitOutput(
                            range::short_files_args(
                                repo,
                                html_page::short(a),
                                html_page::short(b),
                            ),
                        ),
                    )
                } else {
                    StepView::Done(
                        log_page(
                            html_page::short(a),
                            html_page::short(b),
                            cards::log_cards(
                                cards::counts_in(
                                    lines::lines(job::printed(answers[(n + 1) as int])),
                                ),
                                answers[n as int].stdout@,
                            ),
                            theme,
                        ),
                        n + 2,
                    )
                },
            }
        },
    }
}

/// An error as a page shows it.
fn pre(what: &str, e: &str) -> (r: String)
    ensures
        r@ == what@ + escape::html_escaped(e@) + "</pre>"@,
{
    let mut out = what.to_owned();
    let escaped = html_escape(e);
    out.append(escaped.as_str());
    out.append("</pre>");
    out
}

/// The page with the log of a range, or with what went wrong.
pub fn serve_git_log(
    repo: &str,
    a: &str,
    b: &str,
    theme: Theme,
    answers: &Vec<Answer>,
    at: usize,
) -> (r: Step<String>)
    ensures
        job::text_step(r) == log_step(repo@, a@, b@, theme, answers@, at as nat),
{
    let (base, n) = match resolve_diff_base(repo, a, b, answers, at) {
        Step::Ask(ask) => {
            return Step::Ask(ask);
        },
        Step::Done(Err(e), n) => {
            return Step::Done(pre("<pre>Error resolving log base: ", e.as_str()), n);
        },
        Step::Done(Ok(base), n) => (base, n),
    };
    if !has_answer(answers, n, 0) {
        return Step::Ask(ask_log(repo, base.as_str(), a, b));
    }
    match &answers[n].error {
        Some(e) => {
            return Step::Done(pre("<pre>Error running git log: ", e.as_str()), n + 1);
        },
        None => {},
    }
    let s1 = short_sha(a);
    let s2 = short_sha(b);
    if !has_answer(answers, n, 1) {
        return Step::Ask(ask_short_files(repo, s1.as_str(), s2.as_str()));
    }
    let files = get_printed(&answers[n + 1]);
    Step::Done(
        build_log_html(
            s1.as_str(),
            s2.as_str(),
            answers[n].stdout.as_str(),
            files.as_str(),
            theme,
        ),
        n + 2,
    )
}

} // verus!
