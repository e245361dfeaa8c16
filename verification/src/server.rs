//! The web server: what it does for each request.

use vstd::prelude::*;

use crate::charset;
use crate::charset::{is_valid_ref_name, is_valid_sha};
use crate::diff_page;
use crate::diff_page::{diff2html_section, run_diff2html, serve_git_log, DiffRequest, DiffView};
use crate::html_page;
use crate::html_page::{
    build_html, build_no_diff_html, build_view_html, inject_commit_navigation, short_sha,
};
use crate::http::{Response, ResponseView};
use crate::job;
use crate::job::{
    command, concat, has_succeeded, Answer, Ask, AskView, Step, StepView,
};
use crate::lines;
use crate::lines::split_lines;
use crate::markdown;
use crate::prompt;
use crate::prompt::build_prompt;
use crate::query;
use crate::query::{parse_pathspec, parse_query, QueryParams};
use crate::range;
use crate::range::{ask_parents, ask_quiet, find_child_commit, find_first_parent, has_git_diff};
use crate::search;
use crate::search::{cut_at_most, cut_once};
use crate::summary;
use crate::summary::{run_gia_diff, run_gia_log};
use crate::text;
use crate::text::same_text;
use crate::theme::Theme;

verus! {

/// What the server knows.
#[derive(Debug)]
pub struct Server {
    pub repo_path: String,
    pub repo_name: String,
    /// The user's prompt for the AI tool.
    pub prompt: Option<String>,
    /// The locale that the AI tool answers in.
    pub lang: String,
    /// Whether a recording extends the prompt.
    pub gia_audio: bool,
    pub theme: Theme,
    /// How many files a page shows at most; with 0 all.
    pub max_diff_files: usize,
    pub gitlab_url: Option<String>,
    /// The script that draws differences.
    pub diff_js: String,
    /// Its style sheet.
    pub diff_css: String,
}

/// What becomes of a request.
#[derive(Debug)]
pub enum Reply {
    /// Nothing is sent.
    Closed,
    /// A response is sent. Where refs have changed the graph is then made anew.
    Sent { response: Response, regenerate: bool },
}

/// What a reply holds.
pub enum ReplyView {
    Closed,
    Sent { response: ResponseView, regenerate: bool },
}

impl View for Reply {
    type V = ReplyView;

    open spec fn view(&self) -> ReplyView {
        match *self {
            Reply::Closed => ReplyView::Closed,
            Reply::Sent { response, regenerate } => ReplyView::Sent {
                response: response@,
                regenerate,
            },
        }
    }
}

/// What a step that yields a reply holds.
pub open spec fn reply_step(s: Step<Reply>) -> StepView<ReplyView> {
    match s {
        Step::Ask(a) => StepView::Ask(a@),
        Step::Done(t, n) => StepView::Done(t@, n as nat),
    }
}

/// The page that closes itself.
pub const CLOSE_PAGE: &'static str = "<html><body><script>window.close();</script></body></html>";

/// What closes the page that it is sent to.
pub const CLOSE_SCRIPT: &'static str = "<script>window.close();</script>";

// ---------------------------------------------------------------------------------------------
// Replies
// ---------------------------------------------------------------------------------------------

/// A plain text is sent.
pub open spec fn plain(status: u16, body: Seq<char>, n: nat) -> StepView<ReplyView> {
    StepView::Done(
        ReplyView::Sent {
            response: ResponseView { status, content_type: "text/plain"@, body },
            regenerate: false,
        },
        n,
    )
}

/// A page is sent.
pub open spec fn page(body: Seq<char>, n: nat) -> StepView<ReplyView> {
    StepView::Done(
        ReplyView::Sent {
            response: ResponseView { status: 200, content_type: "text/html; charset=utf-8"@, body },
            regenerate: false,
        },
        n,
    )
}

/// Refs have changed, and the graph is made anew.
pub open spec fn changed(n: nat) -> StepView<ReplyView> {
    StepView::Done(
        ReplyView::Sent {
            response: ResponseView { status: 200, content_type: "text/plain"@, body: "OK"@ },
            regenerate: true,
        },
        n,
    )
}

/// A plain text is sent.
fn send_plain(status: u16, body: &str, n: usize) -> (r: Step<Reply>)
    ensures
        reply_step(r) == plain(status, body@, n as nat),
{
    Step::Done(Reply::Sent { response: Response::plain(status, body), regenerate: false }, n)
}

/// A page is sent.
fn send_page(body: &str, n: usize) -> (r: Step<Reply>)
    ensures
        reply_step(r) == page(body@, n as nat),
{
    Step::Done(Reply::Sent { response: Response::html(body), regenerate: false }, n)
}

/// Refs have changed, and the graph is made anew.
fn send_changed(n: usize) -> (r: Step<Reply>)
    ensures
        reply_step(r) == changed(n as nat),
{
    Step::Done(Reply::Sent { response: Response::plain(200, "OK"), regenerate: true }, n)
}

// ---------------------------------------------------------------------------------------------
// Requests
// ---------------------------------------------------------------------------------------------

/// The path and the query that a request line asks for. Only `GET` is understood.
pub open spec fn request_target(line: Seq<char>) -> Option<(Seq<char>, Seq<char>)> {
    let parts = search::split_at_most(line, 3, " "@);
    if parts.len() < 2 || parts[0] != "GET"@ {
        None
    } else {
        match search::split_once(parts[1], "?"@) {
            Some(p) => Some(p),
            None => Some((parts[1], seq![])),
        }
    }
}

/// The path and the query that a request line asks for.
pub fn parse_request(line: &str) -> (r: Option<(String, String)>)
    ensures
        match r {
            Some(t) => request_target(line@) == Some((t.0@, t.1@)),
            None => request_target(line@) is None,
        },
{
    proof {
        reveal_strlit(" ");
    }
    let parts = cut_at_most(line, 3, " ");
    let ghost ps = search::split_at_most(line@, 3, " "@);
    assert(parts@.len() == text::views(parts@).len());
    if parts.len() < 2 {
        return None;
    }
    assert(ps[0] == parts@[0]@);
    assert(ps[1] == parts@[1]@);
    if !same_text(parts[0].as_str(), "GET") {
        return None;
    }
    match cut_once(parts[1].as_str(), "?") {
        Some(t) => Some(t),
        None => {
            let none = String::new();
            assert(none@ =~= seq![]);
            Some((parts[1].clone(), none))
        },
    }
}

/// The value of a parameter that has to be a hash.
pub open spec fn sha_param(pairs: Seq<(Seq<char>, Seq<char>)>, key: Seq<char>) -> Option<
    Seq<char>,
> {
    match query::value(pairs, key) {
        Some(v) => if charset::valid_sha(v) {
            Some(v)
        } else {
            None
        },
        None => None,
    }
}

/// The value of a parameter that has to be the name of a ref.
pub open spec fn name_param(pairs: Seq<(Seq<char>, Seq<char>)>, key: Seq<char>) -> Option<
    Seq<char>,
> {
    match query::value(pairs, key) {
        Some(v) => if charset::valid_ref_name(v) {
            Some(v)
        } else {
            None
        },
        None => None,
    }
}

/// Whether a parameter is switched on.
pub open spec fn switched_on(pairs: Seq<(Seq<char>, Seq<char>)>, key: Seq<char>) -> bool {
    query::value(pairs, key) == Some("1"@)
}

/// The filter of a request.
pub open spec fn filter_param(pairs: Seq<(Seq<char>, Seq<char>)>) -> Seq<char> {
    match query::value(pairs, "filter"@) {
        Some(v) => v,
        None => seq![],
    }
}

/// The two commits of a request, or what is wrong with them. `suffix` ends the complaint.
pub open spec fn range_param(pairs: Seq<(Seq<char>, Seq<char>)>, suffix: Seq<char>) -> Result<
    (Seq<char>, Seq<char>),
    Seq<char>,
> {
    match (sha_param(pairs, "from"@), sha_param(pairs, "to"@)) {
        (None, _) => Err("Invalid or missing 'from'"@ + suffix),
        (Some(a), None) => Err("Invalid or missing 'to'"@ + suffix),
        (Some(a), Some(b)) => Ok((a, b)),
    }
}

/// The value of a parameter that has to be a hash.
fn get_sha<'a>(params: &'a QueryParams, key: &str) -> (r: Option<&'a str>)
    ensures
        text::opt_str_view(r) == sha_param(params@, key@),
{
    match params.get(key) {
        Some(v) => {
            if is_valid_sha(v) {
                Some(v)
            } else {
                None
            }
        },
        None => None,
    }
}

/// The value of a parameter that has to be the name of a ref.
fn get_name<'a>(params: &'a QueryParams, key: &str) -> (r: Option<&'a str>)
    ensures
        text::opt_str_view(r) == name_param(params@, key@),
{
    match params.get(key) {
        Some(v) => {
            if is_valid_ref_name(v) {
                Some(v)
            } else {
                None
            }
        },
        None => None,
    }
}

/// Whether a parameter is switched on.
fn is_on(params: &QueryParams, key: &str) -> (r: bool)
    ensures
        r == switched_on(params@, key@),
{
    match params.get(key) {
        Some(v) => same_text(v, "1"),
        None => false,
    }
}

/// The filter of a request.
fn get_filter(params: &QueryParams) -> (r: String)
    ensures
        r@ == filter_param(params@),
{
    match params.get("filter") {
        Some(v) => v.to_owned(),
        None => {
            let none = String::new();
            assert(none@ =~= seq![]);
            none
        },
    }
}

/// The two commits of a request, or what is wrong with them.
fn get_range<'a>(params: &'a QueryParams, suffix: &str) -> (r: Result<(&'a str, &'a str), String>)
    ensures
        match r {
            Ok(p) => range_param(params@, suffix@) == Ok::<(Seq<char>, Seq<char>), Seq<char>>(
                (p.0@, p.1@),
            ),
            Err(e) => range_param(params@, suffix@) == Err::<(Seq<char>, Seq<char>), Seq<char>>(e@),
        },
{
    match get_sha(params, "from") {
        Some(a) => match get_sha(params, "to") {
            Some(b) => Ok((a, b)),
            None => Err(concat("Invalid or missing 'to'", suffix)),
        },
        None => Err(concat("Invalid or missing 'from'", suffix)),
    }
}

// ---------------------------------------------------------------------------------------------
// The graph
// ---------------------------------------------------------------------------------------------

/// `/heartbeat`: the page is alive.
pub open spec fn heartbeat_step(answers: Seq<Answer>) -> StepView<ReplyView> {
    if answers.len() == 0 {
        StepView::Ask(AskView::Heartbeat)
    } else {
        plain(200, "OK"@, 1)
    }
}

/// `/view`: the graph.
pub open spec fn view_step(s: Server, answers: Seq<Answer>) -> StepView<ReplyView> {
    if answers.len() == 0 {
        StepView::Ask(AskView::ReadSvg)
    } else if job::succeeded(answers[0]) {
        page(html_page::view_page(answers[0].stdout@, s.repo_name@), 1)
    } else {
        plain(404, "SVG not yet available"@, 1)
    }
}

/// `/version`: when the graph was made.
pub open spec fn version_step(answers: Seq<Answer>) -> StepView<ReplyView> {
    if answers.len() == 0 {
        StepView::Ask(AskView::SvgTime)
    } else if job::succeeded(answers[0]) {
        plain(200, answers[0].stdout@, 1)
    } else {
        plain(200, "0"@, 1)
    }
}

/// `/heartbeat`: the page is alive.
fn serve_heartbeat(answers: &Vec<Answer>) -> (r: Step<Reply>)
    ensures
        reply_step(r) == heartbeat_step(answers@),
{
    if answers.len() == 0 {
        Step::Ask(Ask::Heartbeat)
    } else {
        send_plain(200, "OK", 1)
    }
}

/// `/view`: the graph.
fn serve_svg(s: &Server, answers: &Vec<Answer>) -> (r: Step<Reply>)
    ensures
        reply_step(r) == view_step(*s, answers@),
{
    if answers.len() == 0 {
        Step::Ask(Ask::ReadSvg)
    } else if has_succeeded(&answers[0]) {
        let html = build_view_html(answers[0].stdout.as_str(), s.repo_name.as_str());
        send_page(html.as_str(), 1)
    } else {
        send_plain(404, "SVG not yet available", 1)
    }
}

/// `/version`: when the graph was made.
fn serve_version(answers: &Vec<Answer>) -> (r: Step<Reply>)
    ensures
        reply_step(r) == version_step(answers@),
{
    if answers.len() == 0 {
        Step::Ask(Ask::SvgTime)
    } else if has_succeeded(&answers[0]) {
        send_plain(200, answers[0].stdout.as_str(), 1)
    } else {
        send_plain(200, "0", 1)
    }
}

// ---------------------------------------------------------------------------------------------
// Changes to the repository
// ---------------------------------------------------------------------------------------------

/// Asks for the local branches at a commit.
pub open spec fn points_at_args(repo: Seq<char>, sha: Seq<char>) -> Seq<Seq<char>> {
    seq!["-C"@, repo, "branch"@, "--points-at"@, sha, "--format=%(refname:short)"@]
}

/// Checks something out.
pub open spec fn checkout_args(repo: Seq<char>, target: Seq<char>) -> Seq<Seq<char>> {
    seq!["-C"@, repo, "checkout"@, target]
}

/// The first line that is not empty.
pub open spec fn first_filled(ls: Seq<Seq<char>>) -> Option<Seq<char>>
    decreases ls.len(),
{
    if ls.len() == 0 {
        None
    } else if ls[0].len() > 0 {
        Some(ls[0])
    } else {
        first_filled(ls.drop_first())
    }
}

/// What is checked out: a local branch at the commit, or else the commit itself.
pub open spec fn checkout_target(sha: Seq<char>, answer: Answer) -> Seq<char> {
    if answer.error is None && answer.utf8 {
        match first_filled(lines::lines(answer.stdout@)) {
            Some(branch) => branch,
            None => sha,
        }
    } else {
        sha
    }
}

/// `/checkout`: checks a commit out.
pub open spec fn checkout_step(
    s: Server,
    pairs: Seq<(Seq<char>, Seq<char>)>,
    answers: Seq<Answer>,
) -> StepView<ReplyView> {
    match sha_param(pairs, "sha"@) {
        None => plain(400, "Invalid or missing 'sha'"@, 0),
        Some(sha) => if answers.len() == 0 {
            StepView::Ask(AskView::GitOutput(points_at_args(s.repo_path@, sha)))
        } else if answers.len() == 1 {
            StepView::Ask(
                AskView::GitStatus(
                    checkout_args(s.repo_path@, checkout_target(sha, answers[0])),
                ),
            )
        } else {
            changed(2)
        },
    }
}

/// What is checked out: a local branch at the commit, or else the commit itself.
fn find_checkout_target(sha: &str, answer: &Answer) -> (r: String)
    ensures
        r@ == checkout_target(sha@, *answer),
{
    if answer.error.is_none() && answer.utf8 {
        let all = split_lines(answer.stdout.as_str());
        let ghost ls = lines::lines(answer.stdout@);
        let mut i: usize = 0;
        assert(ls.skip(0) =~= ls);
        while i < all.len()
            invariant
                text::views(all@) == ls,
                ls == lines::lines(answer.stdout@),
                answer.error is None && answer.utf8,
                i <= all@.len(),
                first_filled(ls) == first_filled(ls.skip(i as int)),
            decreases all@.len() - i,
        {
            assert(ls.skip(i as int)[0] == all@[i as int]@);
            assert(ls.skip(i as int).drop_first() =~= ls.skip(i + 1));
            if !all[i].as_str().is_empty() {
                return all[i].clone();
            }
            i = i + 1;
        }
        assert(all@.len() == ls.len());
    }
    sha.to_owned()
}

/// `/checkout`: checks a commit out.
fn run_git_checkout(s: &Server, params: &QueryParams, answers: &Vec<Answer>) -> (r: Step<Reply>)
    ensures
        reply_step(r) == checkout_step(*s, params@, answers@),
{
    let repo = s.repo_path.as_str();
    let sha = match get_sha(params, "sha") {
        Some(sha) => sha,
        None => {
            return send_plain(400, "Invalid or missing 'sha'", 0);
        },
    };
    if answers.len() == 0 {
        let parts: Vec<&str> = vec![
            "-C",
            repo,
            "branch",
            "--points-at",
            sha,
            "--format=%(refname:short)",
        ];
        assert(job::str_views(parts@) =~= points_at_args(repo@, sha@));
        Step::Ask(Ask::GitOutput(command(parts)))
    } else if answers.len() == 1 {
        let target = find_checkout_target(sha, &answers[0]);
        let parts: Vec<&str> = vec!["-C", repo, "checkout", target.as_str()];
        assert(job::str_views(parts@) =~= checkout_args(repo@, target@));
        Step::Ask(Ask::GitStatus(command(parts)))
    } else {
        send_changed(2)
    }
}

/// Deletes a local branch.
pub open spec fn delete_branch_args(repo: Seq<char>, name: Seq<char>) -> Seq<Seq<char>> {
    seq!["-C"@, repo, "branch"@, "-D"@, name]
}

/// Deletes a ref of a remote.
pub open spec fn delete_remote_args(repo: Seq<char>, remote: Seq<char>, name: Seq<char>) -> Seq<
    Seq<char>,
> {
    seq!["-C"@, repo, "push"@, remote, "--delete"@, name]
}

/// The remote and the branch that a remote-tracking branch stands for. Without the name of a
/// remote it is `origin`.
pub open spec fn remote_and_branch(name: Seq<char>) -> (Seq<char>, Seq<char>) {
    match search::split_once(name, "/"@) {
        Some(p) => p,
        None => ("origin"@, name),
    }
}

/// The command that deletes a branch. Only local and remote ones can be deleted.
pub open spec fn delete_branch_command(repo: Seq<char>, name: Seq<char>, scope: Seq<char>) -> Option<
    Seq<Seq<char>>,
> {
    if scope == "local"@ {
        Some(delete_branch_args(repo, name))
    } else if scope == "remote"@ {
        let p = remote_and_branch(name);
        Some(delete_remote_args(repo, p.0, p.1))
    } else {
        None
    }
}

/// `/delete-branch`: deletes a branch.
pub open spec fn delete_branch_step(
    s: Server,
    pairs: Seq<(Seq<char>, Seq<char>)>,
    answers: Seq<Answer>,
) -> StepView<ReplyView> {
    match name_param(pairs, "name"@) {
        None => plain(400, "Invalid or missing 'name'"@, 0),
        Some(name) => {
            let scope = match query::value(pairs, "scope"@) {
                Some(v) => v,
                None => "local"@,
            };
            match delete_branch_command(s.repo_path@, name, scope) {
                Some(args) => if answers.len() == 0 {
                    StepView::Ask(AskView::GitStatus(args))
                } else {
                    changed(1)
                },
                None => changed(0),
            }
        },
    }
}

/// `/delete-branch`: deletes a branch.
fn run_branch_delete(s: &Server, params: &QueryParams, answers: &Vec<Answer>) -> (r: Step<Reply>)
    ensures
        reply_step(r) == delete_branch_step(*s, params@, answers@),
{
    let repo = s.repo_path.as_str();
    let name = match get_name(params, "name") {
        Some(name) => name,
        None => {
            return send_plain(400, "Invalid or missing 'name'", 0);
        },
    };
    let scope = match params.get("scope") {
        Some(v) => v,
        None => "local",
    };
    if same_text(scope, "local") {
        if answers.len() > 0 {
            return send_changed(1);
        }
        let parts: Vec<&str> = vec!["-C", repo, "branch", "-D", name];
        assert(job::str_views(parts@) =~= delete_branch_args(repo@, name@));
        Step::Ask(Ask::GitStatus(command(parts)))
    } else if same_text(scope, "remote") {
        if answers.len() > 0 {
            return send_changed(1);
        }
        let (remote, branch) = match cut_once(name, "/") {
            Some(p) => p,
            None => ("origin".to_owned(), name.to_owned()),
        };
        let parts: Vec<&str> = vec![
            "-C",
            repo,
            "push",
            remote.as_str(),
            "--delete",
            branch.as_str(),
        ];
        assert(job::str_views(parts@) =~= delete_remote_args(repo@, remote@, branch@));
        Step::Ask(Ask::GitStatus(command(parts)))
    } else {
        send_changed(0)
    }
}

/// Deletes a local tag.
pub open spec fn delete_tag_args(repo: Seq<char>, name: Seq<char>) -> Seq<Seq<char>> {
    seq!["-C"@, repo, "tag"@, "-d"@, name]
}

/// Asks for the remotes.
pub open spec fn remotes_args(repo: Seq<char>) -> Seq<Seq<char>> {
    seq!["-C"@, repo, "remote"@]
}

/// `/delete-tag`: deletes a tag here, and on every remote.
pub open spec fn delete_tag_step(
    s: Server,
    pairs: Seq<(Seq<char>, Seq<char>)>,
    answers: Seq<Answer>,
) -> StepView<ReplyView> {
    match name_param(pairs, "name"@) {
        None => plain(400, "Invalid or missing 'name'"@, 0),
        Some(name) => if answers.len() == 0 {
            StepView::Ask(AskView::GitStatus(delete_tag_args(s.repo_path@, name)))
        } else if answers.len() == 1 {
            StepView::Ask(AskView::GitOutput(remotes_args(s.repo_path@)))
        } else {
            let remotes = lines::lines(job::printed(answers[1]));
            if answers.len() - 2 < remotes.len() {
                StepView::Ask(
                    AskView::GitStatus(
                        delete_remote_args(s.repo_path@, remotes[answers.len() - 2], name),
                    ),
                )
            } else {
                changed(remotes.len() + 2)
            }
        },
    }
}

/// `/delete-tag`: deletes a tag here, and on every remote.
fn run_tag_delete(s: &Server, params: &QueryParams, answers: &Vec<Answer>) -> (r: Step<Reply>)
    ensures
        reply_step(r) == delete_tag_step(*s, params@, answers@),
{
    let repo = s.repo_path.as_str();
    let name = match get_name(params, "name") {
        Some(name) => name,
        None => {
            return send_plain(400, "Invalid or missing 'name'", 0);
        },
    };
    if answers.len() == 0 {
        let parts: Vec<&str> = vec!["-C", repo, "tag", "-d", name];
        assert(job::str_views(parts@) =~= delete_tag_args(repo@, name@));
        return Step::Ask(Ask::GitStatus(command(parts)));
    }
    if answers.len() == 1 {
        let parts: Vec<&str> = vec!["-C", repo, "remote"];
        assert(job::str_views(parts@) =~= remotes_args(repo@));
        return Step::Ask(Ask::GitOutput(command(parts)));
    }
    let output = job::get_printed(&answers[1]);
    let remotes = split_lines(output.as_str());
    assert(remotes@.len() == text::views(remotes@).len());
    let done = answers.len() - 2;
    if done < remotes.len() {
        assert(text::views(remotes@)[done as int] == remotes@[done as int]@);
        let parts: Vec<&str> = vec!["-C", repo, "push", remotes[done].as_str(), "--delete", name];
        assert(job::str_views(parts@) =~= delete_remote_args(
            repo@,
            remotes@[done as int]@,
            name@,
        ));
        Step::Ask(Ask::GitStatus(command(parts)))
    } else {
        send_changed(remotes.len() + 2)
    }
}

// ---------------------------------------------------------------------------------------------
// Differences
// ---------------------------------------------------------------------------------------------

/// The request for the differences of a range.
pub open spec fn diff_request(
    s: Server,
    a: Seq<char>,
    b: Seq<char>,
    filter: Seq<char>,
) -> DiffView {
    DiffView {
        repo: s.repo_path@,
        sha1: a,
        sha2: b,
        theme: s.theme,
        paths: query::filter_pathspecs(filter),
        filter,
        max_files: s.max_diff_files,
        gitlab_url: text::opt_view(s.gitlab_url),
        js: s.diff_js@,
        css: s.diff_css@,
    }
}

/// The request for the differences of a range.
fn make_request<'a>(
    s: &'a Server,
    a: &'a str,
    b: &'a str,
    filter: &'a str,
    paths: &'a Vec<String>,
) -> (r: DiffRequest<'a>)
    requires
        text::views(paths@) == query::filter_pathspecs(filter@),
    ensures
        r@ == diff_request(*s, a@, b@, filter@),
{
    let gitlab_url = match &s.gitlab_url {
        Some(url) => Some(url.as_str()),
        None => None,
    };
    let r = DiffRequest {
        repo: s.repo_path.as_str(),
        sha1: a,
        sha2: b,
        theme: s.theme,
        paths,
        filter,
        max_files: s.max_diff_files,
        gitlab_url,
        js: s.diff_js.as_str(),
        css: s.diff_css.as_str(),
    };
    assert(r@ =~= diff_request(*s, a@, b@, filter@));
    r
}

/// Opens the difference tool on two commits.
pub open spec fn difftool_args(repo: Seq<char>, a: Seq<char>, b: Seq<char>) -> Seq<Seq<char>> {
    seq!["-C"@, repo, "difftool"@, "-d"@, a, b]
}

/// The prompt for differences: that of the command line, else that of the user's file, else the
/// default one.
pub open spec fn diff_prompt(s: Server, answer: Answer) -> Seq<char> {
    match s.prompt {
        Some(p) => p@,
        None => if job::succeeded(answer) {
            answer.stdout@
        } else {
            prompt::DEFAULT_DIFF_PROMPT@
        },
    }
}

/// The prompt for logs: that of the command line, else the default one.
pub open spec fn log_prompt(s: Server) -> Seq<char> {
    match s.prompt {
        Some(p) => p@,
        None => prompt::DEFAULT_LOG_PROMPT@,
    }
}

/// The page with a summary and the differences below it. An empty summary closes the page.
pub open spec fn summary_reply(
    s: Server,
    a: Seq<char>,
    b: Seq<char>,
    filter: Seq<char>,
    said: Seq<char>,
    answers: Seq<Answer>,
    at: nat,
) -> StepView<ReplyView> {
    if said.len() == 0 {
        page(CLOSE_SCRIPT@, at)
    } else {
        match diff_page::section_step(diff_request(s, a, b, filter), answers, at) {
            StepView::Ask(ask) => StepView::Ask(ask),
            StepView::Done(section, n) => page(
                html_page::summary_page(
                    html_page::short(a),
                    html_page::short(b),
                    markdown::markdown_html(said),
                    s.theme,
                    match section {
                        Ok(html) => html,
                        Err(e) => ""@,
                    },
                ),
                n,
            ),
        }
    }
}

/// The page with a summary and the differences below it.
fn send_summary(
    s: &Server,
    a: &str,
    b: &str,
    filter: &str,
    said: &str,
    answers: &Vec<Answer>,
    at: usize,
) -> (r: Step<Reply>)
    ensures
        reply_step(r) == summary_reply(*s, a@, b@, filter@, said@, answers@, at as nat),
{
    if said.is_empty() {
        return send_page(CLOSE_SCRIPT, at);
    }
    let paths = parse_pathspec(filter);
    let q = make_request(s, a, b, filter, &paths);
    match diff2html_section(&q, answers, at) {
        Step::Ask(ask) => Step::Ask(ask),
        Step::Done(section, n) => {
            let s1 = short_sha(a);
            let s2 = short_sha(b);
            let below = match &section {
                Ok(html) => Some(html.as_str()),
                Err(_) => None,
            };
            let html = build_html(s1.as_str(), s2.as_str(), said, s.theme, below);
            send_page(html.as_str(), n)
        },
    }
}

/// `/diff` without the AI tool: opens the difference tool.
pub open spec fn difftool_step(s: Server, a: Seq<char>, b: Seq<char>, answers: Seq<Answer>) -> StepView<
    ReplyView,
> {
    if answers.len() == 0 {
        StepView::Ask(AskView::GitStatus(range::quiet_args(s.repo_path@, a, b, seq![])))
    } else if !range::differs(answers[0]) {
        page(html_page::no_diff_page(a, b, s.theme), 1)
    } else if answers.len() == 1 {
        StepView::Ask(AskView::GitSpawn(difftool_args(s.repo_path@, a, b)))
    } else {
        page(CLOSE_PAGE@, 2)
    }
}

/// `/diff` with the AI tool: a summary of the differences, with or without the log of the range.
pub open spec fn diff_summary_step(
    s: Server,
    a: Seq<char>,
    b: Seq<char>,
    with_log: bool,
    filter: Seq<char>,
    answers: Seq<Answer>,
) -> StepView<ReplyView> {
    let paths = query::filter_pathspecs(filter);
    if answers.len() == 0 {
        StepView::Ask(AskView::GitStatus(range::quiet_args(s.repo_path@, a, b, paths)))
    } else if !range::differs(answers[0]) {
        page(html_page::no_diff_page(a, b, s.theme), 1)
    } else if answers.len() == 1 {
        StepView::Ask(AskView::LoadPrompt)
    } else {
        match summary::gia_diff_step(
            s.repo_path@,
            a,
            b,
            prompt::effective_prompt(diff_prompt(s, answers[1]), s.lang@, s.gia_audio),
            with_log,
            s.gia_audio,
            paths,
            answers,
            2,
        ) {
            StepView::Ask(ask) => StepView::Ask(ask),
            StepView::Done(said, n) => summary_reply(s, a, b, filter, said, answers, n),
        }
    }
}

/// `/diff`: the differences of a range.
pub open spec fn diff_step(
    s: Server,
    pairs: Seq<(Seq<char>, Seq<char>)>,
    answers: Seq<Answer>,
) -> StepView<ReplyView> {
    match range_param(pairs, " parameter"@) {
        Err(e) => plain(400, e, 0),
        Ok(ends) => if switched_on(pairs, "ai"@) {
            diff_summary_step(
                s,
                ends.0,
                ends.1,
                !switched_on(pairs, "nolog"@),
                filter_param(pairs),
                answers,
            )
        } else {
            difftool_step(s, ends.0, ends.1, answers)
        },
    }
}

/// `/diff` without the AI tool: opens the difference tool.
fn run_git_difftool(s: &Server, a: &str, b: &str, answers: &Vec<Answer>) -> (r: Step<Reply>)
    ensures
        reply_step(r) == difftool_step(*s, a@, b@, answers@),
{
    let repo = s.repo_path.as_str();
    if answers.len() == 0 {
        let all: Vec<String> = Vec::new();
        assert(text::views(all@) =~= seq![]);
        Step::Ask(ask_quiet(repo, a, b, &all))
    } else if !has_git_diff(&answers[0]) {
        let html = build_no_diff_html(a, b, s.theme);
        send_page(html.as_str(), 1)
    } else if answers.len() == 1 {
        let parts: Vec<&str> = vec!["-C", repo, "difftool", "-d", a, b];
        assert(job::str_views(parts@) =~= difftool_args(repo@, a@, b@));
        Step::Ask(Ask::GitSpawn(command(parts)))
    } else {
        send_page(CLOSE_PAGE, 2)
    }
}

/// `/diff` with the AI tool: a summary of the differences.
fn serve_diff_summary(
    s: &Server,
    a: &str,
    b: &str,
    include_log: bool,
    filter: &str,
    answers: &Vec<Answer>,
) -> (r: Step<Reply>)
    ensures
        reply_step(r) == diff_summary_step(*s, a@, b@, include_log, filter@, answers@),
{
    let repo = s.repo_path.as_str();
    let paths = parse_pathspec(filter);
    if answers.len() == 0 {
        return Step::Ask(ask_quiet(repo, a, b, &paths));
    }
    if !has_git_diff(&answers[0]) {
        let html = build_no_diff_html(a, b, s.theme);
        return send_page(html.as_str(), 1);
    }
    if answers.len() == 1 {
        return Step::Ask(Ask::LoadPrompt);
    }
    let base = match &s.prompt {
        Some(p) => p.as_str(),
        None => {
            if has_succeeded(&answers[1]) {
                answers[1].stdout.as_str()
            } else {
                prompt::DEFAULT_DIFF_PROMPT
            }
        },
    };
    let prompt = build_prompt(base, s.lang.as_str(), s.gia_audio);
    match run_gia_diff(
        repo,
        a,
        b,
        prompt.as_str(),
        include_log,
        s.gia_audio,
        &paths,
        answers,
        2,
    ) {
        Step::Ask(ask) => Step::Ask(ask),
        Step::Done(said, n) => send_summary(s, a, b, filter, said.as_str(), answers, n),
    }
}

/// `/diff`: the differences of a range.
fn serve_diff(s: &Server, params: &QueryParams, answers: &Vec<Answer>) -> (r: Step<Reply>)
    ensures
        reply_step(r) == diff_step(*s, params@, answers@),
{
    match get_range(params, " parameter") {
        Err(e) => send_plain(400, e.as_str(), 0),
        Ok((a, b)) => {
            if is_on(params, "ai") {
                let filter = get_filter(params);
                serve_diff_summary(s, a, b, !is_on(params, "nolog"), filter.as_str(), answers)
            } else {
                run_git_difftool(s, a, b, answers)
            }
        },
    }
}

/// `/log-summary`: a summary of the log of a range.
pub open spec fn log_summary_step(
    s: Server,
    pairs: Seq<(Seq<char>, Seq<char>)>,
    answers: Seq<Answer>,
) -> StepView<ReplyView> {
    match range_param(pairs, ""@) {
        Err(e) => plain(400, e, 0),
        Ok(ends) => if answers.len() == 0 {
            StepView::Ask(
                AskView::GitStatus(range::quiet_args(s.repo_path@, ends.0, ends.1, seq![])),
            )
        } else if !range::differs(answers[0]) {
            page(html_page::no_diff_page(ends.0, ends.1, s.theme), 1)
        } else {
            match summary::gia_log_step(
                s.repo_path@,
                ends.0,
                ends.1,
                prompt::effective_prompt(log_prompt(s), s.lang@, s.gia_audio),
                s.gia_audio,
                answers,
                1,
            ) {
                StepView::Ask(ask) => StepView::Ask(ask),
                StepView::Done(said, n) => summary_reply(
                    s,
                    ends.0,
                    ends.1,
                    filter_param(pairs),
                    said,
                    answers,
                    n,
                ),
            }
        },
    }
}

/// `/log-summary`: a summary of the log of a range.
fn serve_log_summary(s: &Server, params: &QueryParams, answers: &Vec<Answer>) -> (r: Step<Reply>)
    ensures
        reply_step(r) == log_summary_step(*s, params@, answers@),
{
    let repo = s.repo_path.as_str();
    let (a, b) = match get_range(params, "") {
        Err(e) => {
            return send_plain(400, e.as_str(), 0);
        },
        Ok(ends) => ends,
    };
    if answers.len() == 0 {
        let all: Vec<String> = Vec::new();
        assert(text::views(all@) =~= seq![]);
        return Step::Ask(ask_quiet(repo, a, b, &all));
    }
    if !has_git_diff(&answers[0]) {
        let html = build_no_diff_html(a, b, s.theme);
        return send_page(html.as_str(), 1);
    }
    let base = match &s.prompt {
        Some(p) => p.as_str(),
        None => prompt::DEFAULT_LOG_PROMPT,
    };
    let prompt = build_prompt(base, s.lang.as_str(), s.gia_audio);
    match run_gia_log(repo, a, b, prompt.as_str(), s.gia_audio, answers, 1) {
        Step::Ask(ask) => Step::Ask(ask),
        Step::Done(said, n) => {
            let filter = get_filter(params);
            send_summary(s, a, b, filter.as_str(), said.as_str(), answers, n)
        },
    }
}

/// `/log`: the log of a range.
pub open spec fn git_log_step(
    s: Server,
    pairs: Seq<(Seq<char>, Seq<char>)>,
    answers: Seq<Answer>,
) -> StepView<ReplyView> {
    match range_param(pairs, ""@) {
        Err(e) => plain(400, e, 0),
        Ok(ends) => if answers.len() == 0 {
            StepView::Ask(
                AskView::GitStatus(range::quiet_args(s.repo_path@, ends.0, ends.1, seq![])),
            )
        } else if !range::differs(answers[0]) {
            page(html_page::no_diff_page(ends.0, ends.1, s.theme), 1)
        } else {
            match diff_page::log_step(s.repo_path@, ends.0, ends.1, s.theme, answers, 1) {
                StepView::Ask(ask) => StepView::Ask(ask),
                StepView::Done(html, n) => page(html, n),
            }
        },
    }
}

/// `/log`: the log of a range.
fn serve_log(s: &Server, params: &QueryParams, answers: &Vec<Answer>) -> (r: Step<Reply>)
    ensures
        reply_step(r) == git_log_step(*s, params@, answers@),
{
    let repo = s.repo_path.as_str();
    let (a, b) = match get_range(params, "") {
        Err(e) => {
            return send_plain(400, e.as_str(), 0);
        },
        Ok(ends) => ends,
    };
    if answers.len() == 0 {
        let all: Vec<String> = Vec::new();
        assert(text::views(all@) =~= seq![]);
        return Step::Ask(ask_quiet(repo, a, b, &all));
    }
    if !has_git_diff(&answers[0]) {
        let html = build_no_diff_html(a, b, s.theme);
        return send_page(html.as_str(), 1);
    }
    match serve_git_log(repo, a, b, s.theme, answers, 1) {
        Step::Ask(ask) => Step::Ask(ask),
        Step::Done(html, n) => send_page(html.as_str(), n),
    }
}

/// `/diff2html`: the page of a range.
pub open spec fn diff2html_step(
    s: Server,
    pairs: Seq<(Seq<char>, Seq<char>)>,
    answers: Seq<Answer>,
) -> StepView<ReplyView> {
    match range_param(pairs, ""@) {
        Err(e) => plain(400, e, 0),
        Ok(ends) => {
            let filter = filter_param(pairs);
            if answers.len() == 0 {
                StepView::Ask(
                    AskView::GitStatus(
                        range::quiet_args(
                            s.repo_path@,
                            ends.0,
                            ends.1,
                            query::filter_pathspecs(filter),
                        ),
                    ),
                )
            } else if !range::differs(answers[0]) {
                page(html_page::no_diff_page(ends.0, ends.1, s.theme), 1)
            } else {
                match diff_page::page_step(
                    diff_request(s, ends.0, ends.1, filter),
                    answers,
                    1,
                ) {
                    StepView::Ask(ask) => StepView::Ask(ask),
                    StepView::Done(Ok(html), n) => page(html, n),
                    StepView::Done(Err(e), n) => plain(500, e, n),
                }
            }
        },
    }
}

/// `/diff2html`: the page of a range.
fn serve_diff2html(s: &Server, params: &QueryParams, answers: &Vec<Answer>) -> (r: Step<Reply>)
    ensures
        reply_step(r) == diff2html_step(*s, params@, answers@),
{
    let (a, b) = match get_range(params, "") {
        Err(e) => {
            return send_plain(400, e.as_str(), 0);
        },
        Ok(ends) => ends,
    };
    let filter = get_filter(params);
    let paths = parse_pathspec(filter.as_str());
    if answers.len() == 0 {
        return Step::Ask(ask_quiet(s.repo_path.as_str(), a, b, &paths));
    }
    if !has_git_diff(&answers[0]) {
        let html = build_no_diff_html(a, b, s.theme);
        return send_page(html.as_str(), 1);
    }
    let q = make_request(s, a, b, filter.as_str(), &paths);
    match run_diff2html(&q, answers, 1) {
        Step::Ask(ask) => Step::Ask(ask),
        Step::Done(Ok(html), n) => send_page(html.as_str(), n),
        Step::Done(Err(e), n) => send_plain(500, e.as_str(), n),
    }
}

/// The older neighbour of a commit with the given first parent.
pub open spec fn older_neighbour(parent: Seq<char>) -> Option<Seq<char>> {
    if parent == range::EMPTY_TREE@ {
        None
    } else {
        Some(parent)
    }
}

/// `/diff2html-single`: the page of one commit, against its first parent, with the way to its
/// neighbours.
pub open spec fn single_step(
    s: Server,
    pairs: Seq<(Seq<char>, Seq<char>)>,
    answers: Seq<Answer>,
) -> StepView<ReplyView> {
    match sha_param(pairs, "commit"@) {
        None => plain(400, "Invalid or missing 'commit'"@, 0),
        Some(commit) => if answers.len() == 0 {
            StepView::Ask(AskView::GitOutput(range::parents_args(s.repo_path@, commit)))
        } else {
            let parent = range::first_parent(answers[0]);
            let filter = filter_param(pairs);
            if answers.len() == 1 {
                StepView::Ask(
                    AskView::GitStatus(
                        range::quiet_args(
                            s.repo_path@,
                            parent,
                            commit,
                            query::filter_pathspecs(filter),
                        ),
                    ),
                )
            } else if !range::differs(answers[1]) {
                page(html_page::no_diff_page(parent, commit, s.theme), 2)
            } else {
                match range::child_step(s.repo_path@, commit, answers, 2) {
                    StepView::Ask(ask) => StepView::Ask(ask),
                    StepView::Done(newer, n) => match diff_page::page_step(
                        diff_request(s, parent, commit, filter),
                        answers,
                        n,
                    ) {
                        StepView::Ask(ask) => StepView::Ask(ask),
                        StepView::Done(Ok(html), m) => page(
                            html_page::with_navigation(html, older_neighbour(parent), newer),
                            m,
                        ),
                        StepView::Done(Err(e), m) => plain(500, e, m),
                    },
                }
            }
        },
    }
}

/// `/diff2html-single`: the page of one commit.
fn serve_single(s: &Server, params: &QueryParams, answers: &Vec<Answer>) -> (r: Step<Reply>)
    ensures
        reply_step(r) == single_step(*s, params@, answers@),
{
    let repo = s.repo_path.as_str();
    let commit = match get_sha(params, "commit") {
        Some(commit) => commit,
        None => {
            return send_plain(400, "Invalid or missing 'commit'", 0);
        },
    };
    if answers.len() == 0 {
        return Step::Ask(ask_parents(repo, commit));
    }
    let parent = find_first_parent(&answers[0]);
    let filter = get_filter(params);
    let paths = parse_pathspec(filter.as_str());
    if answers.len() == 1 {
        return Step::Ask(ask_quiet(repo, parent.as_str(), commit, &paths));
    }
    if !has_git_diff(&answers[1]) {
        let html = build_no_diff_html(parent.as_str(), commit, s.theme);
        return send_page(html.as_str(), 2);
    }
    let older = if same_text(parent.as_str(), range::EMPTY_TREE) {
        None
    } else {
        Some(parent.as_str())
    };
    let (newer, n) = match find_child_commit(repo, commit, answers, 2) {
        Step::Ask(ask) => {
            return Step::Ask(ask);
        },
        Step::Done(newer, n) => (newer, n),
    };
    let newer = match &newer {
        Some(h) => Some(h.as_str()),
        None => None,
    };
    let q = make_request(s, parent.as_str(), commit, filter.as_str(), &paths);
    match run_diff2html(&q, answers, n) {
        Step::Ask(ask) => Step::Ask(ask),
        Step::Done(Ok(html), m) => {
            let html = inject_commit_navigation(html.as_str(), older, newer);
            send_page(html.as_str(), m)
        },
        Step::Done(Err(e), m) => send_plain(500, e.as_str(), m),
    }
}

// ---------------------------------------------------------------------------------------------
// All requests
// ---------------------------------------------------------------------------------------------

/// What is done for a request, by its path.
pub open spec fn route(
    s: Server,
    path: Seq<char>,
    pairs: Seq<(Seq<char>, Seq<char>)>,
    answers: Seq<Answer>,
) -> StepView<ReplyView> {
    if path == "/heartbeat"@ {
        heartbeat_step(answers)
    } else if path == "/view"@ {
        view_step(s, answers)
    } else if path == "/version"@ {
        version_step(answers)
    } else if path == "/checkout"@ {
        checkout_step(s, pairs, answers)
    } else if path == "/delete-branch"@ {
        delete_branch_step(s, pairs, answers)
    } else if path == "/delete-tag"@ {
        delete_tag_step(s, pairs, answers)
    } else if path == "/diff"@ {
        diff_step(s, pairs, answers)
    } else if path == "/log-summary"@ {
        log_summary_step(s, pairs, answers)
    } else if path == "/log"@ {
        git_log_step(s, pairs, answers)
    } else if path == "/diff2html"@ {
        diff2html_step(s, pairs, answers)
    } else if path == "/diff2html-single"@ {
        single_step(s, pairs, answers)
    } else {
        plain(404, "Not Found"@, 0)
    }
}

/// What is done for a request, given what has been answered so far.
pub open spec fn request_step(s: Server, line: Seq<char>, answers: Seq<Answer>) -> StepView<
    ReplyView,
> {
    match request_target(line) {
        None => StepView::Done(ReplyView::Closed, 0),
        Some(t) => route(s, t.0, query::query_pairs(search::split(t.1, "&"@)), answers),
    }
}

/// The next step for a request with the given first line, given what has been answered so far.
pub fn handle_connection(s: &Server, request_line: &str, answers: &Vec<Answer>) -> (r: Step<Reply>)
    ensures
        reply_step(r) == request_step(*s, request_line@, answers@),
{
    let (target, query) = match parse_request(request_line) {
        Some(t) => t,
        None => {
            return Step::Done(Reply::Closed, 0);
        },
    };
    let path = target.as_str();
    let params = parse_query(query.as_str());
    if same_text(path, "/heartbeat") {
        serve_heartbeat(answers)
    } else if same_text(path, "/view") {
        serve_svg(s, answers)
    } else if same_text(path, "/version") {
        serve_version(answers)
    } else if same_text(path, "/checkout") {
        run_git_checkout(s, &params, answers)
    } else if same_text(path, "/delete-branch") {
        run_branch_delete(s, &params, answers)
    } else if same_text(path, "/delete-tag") {
        run_tag_delete(s, &params, answers)
    } else if same_text(path, "/diff") {
        serve_diff(s, &params, answers)
    } else if same_text(path, "/log-summary") {
        serve_log_summary(s, &params, answers)
    } else if same_text(path, "/log") {
        serve_log(s, &params, answers)
    } else if same_text(path, "/diff2html") {
        serve_diff2html(s, &params, answers)
    } else if same_text(path, "/diff2html-single") {
        serve_single(s, &params, answers)
    } else {
        send_plain(404, "Not Found", 0)
    }
}

} // verus!
