//! What a request asks for, whatever has been answered: where `git` is run, which way round it
//! compares, and what the AI tool is told.

use vstd::prelude::*;

use crate::cards;
use crate::charset;
use crate::diff_page;
use crate::diff_page::DiffView;
use crate::html_page;
use crate::job::{Answer, AskView, StepView};
use crate::lines;
use crate::markdown;
use crate::prompt;
use crate::query;
use crate::range;
use crate::search;
use crate::server;
use crate::server::Server;
use crate::summary;
use crate::text;
use crate::theme::Theme;

verus! {

/// The words that `git` is called with differ from one another.
proof fn lemma_words()
    ensures
        "diff"@ != "log"@,
        "diff"@ != "merge-base"@,
        "diff"@ != "branch"@,
        "diff"@ != "rev-list"@,
        "diff"@ != "remote"@,
        "log"@ != "merge-base"@,
        "log"@ != "branch"@,
        "log"@ != "rev-list"@,
        "log"@ != "remote"@,
        "-w"@ != "--name-only"@,
{
    reveal_strlit("diff");
    reveal_strlit("log");
    reveal_strlit("merge-base");
    reveal_strlit("branch");
    reveal_strlit("rev-list");
    reveal_strlit("remote");
    reveal_strlit("-w");
    reveal_strlit("--name-only");
    assert("diff"@.len() == 4);
    assert("log"@.len() == 3);
    assert("merge-base"@.len() == 10);
    assert("branch"@.len() == 6);
    assert("rev-list"@.len() == 8);
    assert("remote"@.len() == 6);
    assert("-w"@.len() == 2);
    assert("--name-only"@.len() == 11);
}

// ---------------------------------------------------------------------------------------------
// The answers so far
// ---------------------------------------------------------------------------------------------

proof fn lemma_base_before(
    repo: Seq<char>,
    a: Seq<char>,
    b: Seq<char>,
    answers: Seq<Answer>,
    at: nat,
    m: nat,
)
    requires
        m <= answers.len(),
    ensures
        range::base_step(repo, a, b, answers, at) matches StepView::Done(r, n) ==> at < n
            <= answers.len() && (n <= m ==> range::base_step(repo, a, b, answers.take(m as int), at)
            == range::base_step(repo, a, b, answers, at)),
{
}

proof fn lemma_child_before(
    repo: Seq<char>,
    commit: Seq<char>,
    answers: Seq<Answer>,
    at: nat,
    m: nat,
)
    requires
        m <= answers.len(),
    ensures
        range::child_step(repo, commit, answers, at) matches StepView::Done(r, n) ==> at < n
            <= answers.len() && (n <= m ==> range::child_step(
            repo,
            commit,
            answers.take(m as int),
            at,
        ) == range::child_step(repo, commit, answers, at)),
{
}

proof fn lemma_gia_before(
    repo: Seq<char>,
    a: Seq<char>,
    b: Seq<char>,
    prompt: Seq<char>,
    audio: bool,
    meta: Option<Seq<char>>,
    input: nat,
    answers: Seq<Answer>,
    at: nat,
    m: nat,
)
    requires
        m <= answers.len(),
    ensures
        summary::gia_step(repo, a, b, prompt, audio, meta, input, answers, at) matches StepView::Done(
            r,
            n,
        ) ==> at < n <= answers.len() && (n <= m ==> summary::gia_step(
            repo,
            a,
            b,
            prompt,
            audio,
            meta,
            input,
            answers.take(m as int),
            at,
        ) == summary::gia_step(repo, a, b, prompt, audio, meta, input, answers, at)),
{
}

proof fn lemma_gia_with_log_before(
    repo: Seq<char>,
    a: Seq<char>,
    b: Seq<char>,
    base: Seq<char>,
    prompt: Seq<char>,
    audio: bool,
    input: nat,
    answers: Seq<Answer>,
    at: nat,
    m: nat,
)
    requires
        m <= answers.len(),
    ensures
        summary::gia_with_log_step(repo, a, b, base, prompt, audio, input, answers, at) matches StepView::Done(
            r,
            n,
        ) ==> at < n <= answers.len() && (n <= m ==> summary::gia_with_log_step(
            repo,
            a,
            b,
            base,
            prompt,
            audio,
            input,
            answers.take(m as int),
            at,
        ) == summary::gia_with_log_step(repo, a, b, base, prompt, audio, input, answers, at)),
{
    lemma_gia_before(repo, a, b, prompt, audio, None, input, answers, at + 1, m);
    if at + 1 < answers.len() {
        let meta = summary::written(answers[(at + 1) as int]);
        lemma_gia_before(repo, a, b, prompt, audio, meta, input, answers, at + 2, m);
    }
}

proof fn lemma_gia_diff_before(
    repo: Seq<char>,
    a: Seq<char>,
    b: Seq<char>,
    prompt: Seq<char>,
    with_log: bool,
    audio: bool,
    paths: Seq<Seq<char>>,
    answers: Seq<Answer>,
    at: nat,
    m: nat,
)
    requires
        m <= answers.len(),
    ensures
        summary::gia_diff_step(repo, a, b, prompt, with_log, audio, paths, answers, at) matches StepView::Done(
            r,
            n,
        ) ==> at < n <= answers.len() && (n <= m ==> summary::gia_diff_step(
            repo,
            a,
            b,
            prompt,
            with_log,
            audio,
            paths,
            answers.take(m as int),
            at,
        ) == summary::gia_diff_step(repo, a, b, prompt, with_log, audio, paths, answers, at)),
{
    lemma_base_before(repo, a, b, answers, at, m);
    match range::base_step(repo, a, b, answers, at) {
        StepView::Done(Ok(base), n) => {
            lemma_gia_before(repo, a, b, prompt, audio, None, n + 1, answers, n + 2, m);
            lemma_gia_with_log_before(
                repo,
                a,
                b,
                base,
                prompt,
                audio,
                n + 1,
                answers,
                n + 2,
                m,
            );
        },
        _ => {},
    }
}

proof fn lemma_gia_log_before(
    repo: Seq<char>,
    a: Seq<char>,
    b: Seq<char>,
    prompt: Seq<char>,
    audio: bool,
    answers: Seq<Answer>,
    at: nat,
    m: nat,
)
    requires
        m <= answers.len(),
    ensures
        summary::gia_log_step(repo, a, b, prompt, audio, answers, at) matches StepView::Done(r, n)
            ==> at < n <= answers.len() && (n <= m ==> summary::gia_log_step(
            repo,
            a,
            b,
            prompt,
            audio,
            answers.take(m as int),
            at,
        ) == summary::gia_log_step(repo, a, b, prompt, audio, answers, at)),
{
    lemma_base_before(repo, a, b, answers, at, m);
    match range::base_step(repo, a, b, answers, at) {
        StepView::Done(Ok(base), n) => {
            lemma_gia_before(repo, a, b, prompt, audio, None, n, answers, n + 1, m);
        },
        _ => {},
    }
}

proof fn lemma_head_before(q: DiffView, answers: Seq<Answer>, at: nat, m: nat)
    requires
        m <= answers.len(),
    ensures
        diff_page::head_step(q, answers, at) matches StepView::Done(r, n) ==> at < n
            <= answers.len() && (n <= m ==> diff_page::head_step(q, answers.take(m as int), at)
            == diff_page::head_step(q, answers, at)),
{
}

// ---------------------------------------------------------------------------------------------
// Which way round `git` compares
// ---------------------------------------------------------------------------------------------

/// The question whether `a` is an ancestor of `b`.
pub open spec fn ancestor_question(repo: Seq<char>, a: Seq<char>, b: Seq<char>) -> AskView {
    AskView::GitStatus(seq!["-C"@, repo, "merge-base"@, "--is-ancestor"@, a, b])
}

/// Whether an ask has `git` print a comparison.
pub open spec fn asks_to_compare(ask: AskView) -> bool {
    ask matches AskView::GitOutput(args) && args.len() > 2 && args[2] == "diff"@
}

/// Whether an ask has `git` compare the older with the newer of two commits: `a` with `b` if the
/// answer said that `a` is an ancestor of `b`, else `b` with `a`. Either the changes are asked for
/// or the names of the files, in both cases of the given paths where there are any.
pub open spec fn compares(
    ask: AskView,
    repo: Seq<char>,
    a: Seq<char>,
    b: Seq<char>,
    answer: Answer,
    paths: Seq<Seq<char>>,
) -> bool {
    let (older, newer) = if answer.error is None && answer.success {
        (a, b)
    } else {
        (b, a)
    };
    let tail = if paths.len() == 0 {
        seq![]
    } else {
        seq!["--"@] + paths
    };
    ask matches AskView::GitOutput(args) && (args == seq![
        "-C"@,
        repo,
        "diff"@,
        "-w"@,
        older,
        newer,
    ] + tail || args == seq!["-C"@, repo, "diff"@, "--name-only"@, "-w"@, older, newer] + tail)
}

proof fn lemma_with_paths(args: Seq<Seq<char>>, paths: Seq<Seq<char>>)
    ensures
        crate::job::with_paths(args, paths) == args + (if paths.len() == 0 {
            seq![]
        } else {
            seq!["--"@] + paths
        }),
{
    if paths.len() == 0 {
        assert(args + Seq::<Seq<char>>::empty() =~= args);
    } else {
        assert(args.push("--"@) + paths =~= args + (seq!["--"@] + paths));
    }
}

proof fn lemma_commands(
    repo: Seq<char>,
    a: Seq<char>,
    b: Seq<char>,
    answer: Answer,
    paths: Seq<Seq<char>>,
)
    ensures
        ({
            let ends = range::ordered(a, b, answer);
            &&& compares(
                AskView::GitOutput(range::diff_args(repo, ends.0, ends.1, paths)),
                repo,
                a,
                b,
                answer,
                paths,
            )
            &&& compares(
                AskView::GitOutput(range::names_args(repo, ends.0, ends.1, paths)),
                repo,
                a,
                b,
                answer,
                paths,
            )
        }),
{
    let ends = range::ordered(a, b, answer);
    lemma_with_paths(seq!["-C"@, repo, "diff"@, "-w"@, ends.0, ends.1], paths);
    lemma_with_paths(seq!["-C"@, repo, "diff"@, "--name-only"@, "-w"@, ends.0, ends.1], paths);
}

/// Whenever the page of two commits has `git` compare, it is the older commit with the newer one,
/// as the answer to the first question of the page says.
pub proof fn law_page_compares_older_with_newer(q: DiffView, answers: Seq<Answer>, at: nat)
    requires
        at <= answers.len(),
    ensures
        diff_page::page_step(q, answers.take(at as int), at) == StepView::<
            Result<Seq<char>, Seq<char>>,
        >::Ask(ancestor_question(q.repo, q.sha1, q.sha2)),
        diff_page::page_step(q, answers, at) matches StepView::Ask(ask) ==> asks_to_compare(ask)
            ==> at < answers.len() && compares(
            ask,
            q.repo,
            q.sha1,
            q.sha2,
            answers[at as int],
            q.paths,
        ),
{
    lemma_words();
    if at < answers.len() {
        lemma_commands(q.repo, q.sha1, q.sha2, answers[at as int], q.paths);
    }
}

/// The same holds of the part of a page that shows a diff.
pub proof fn law_section_compares_older_with_newer(q: DiffView, answers: Seq<Answer>, at: nat)
    requires
        at <= answers.len(),
    ensures
        diff_page::section_step(q, answers.take(at as int), at) == StepView::<
            Result<Seq<char>, Seq<char>>,
        >::Ask(ancestor_question(q.repo, q.sha1, q.sha2)),
        diff_page::section_step(q, answers, at) matches StepView::Ask(ask) ==> asks_to_compare(ask)
            ==> at < answers.len() && compares(
            ask,
            q.repo,
            q.sha1,
            q.sha2,
            answers[at as int],
            q.paths,
        ),
{
    lemma_words();
    if at < answers.len() {
        lemma_commands(q.repo, q.sha1, q.sha2, answers[at as int], q.paths);
    }
}

// ---------------------------------------------------------------------------------------------
// What the AI tool is told
// ---------------------------------------------------------------------------------------------

/// Whether the AI tool is called with the given prompt, and listens if and only if it is to.
pub open spec fn tells(ask: AskView, prompt: Seq<char>, audio: bool) -> bool {
    ask matches AskView::Gia { args, input } && args.len() >= 2 && args[0] == "--markdown"@
        && args[1] == prompt && if audio {
        args.len() >= 5 && args[2] == "-a"@ && args[3] == "--audio-dialog-text"@
    } else {
        args.len() == 2 || args[2] == "-f"@
    }
}

proof fn lemma_gia_asks(
    repo: Seq<char>,
    a: Seq<char>,
    b: Seq<char>,
    prompt: Seq<char>,
    audio: bool,
    meta: Option<Seq<char>>,
    input: nat,
    answers: Seq<Answer>,
    at: nat,
)
    ensures
        summary::gia_step(repo, a, b, prompt, audio, meta, input, answers, at) matches StepView::Ask(
            ask,
        ) ==> {
            &&& !asks_to_compare(ask)
            &&& ask matches AskView::Gia { args, input: i } ==> i == input && tells(
                ask,
                prompt,
                audio,
            )
        },
{
    lemma_words();
    if at + 3 == answers.len() {
        let header = summary::written(answers[(at + 2) as int]);
        let args = summary::gia_args(prompt, audio, header, meta);
        assert(args[0] == "--markdown"@ && args[1] == prompt);
        if audio {
            assert(args[2] == "-a"@);
            assert(args[3] == "--audio-dialog-text"@);
        } else if args.len() > 2 {
            match header {
                Some(h) => {
                    assert(args[2] == "-f"@);
                },
                None => {
                    assert(args[2] == "-f"@);
                },
            }
        }
    }
}

proof fn lemma_gia_with_log_asks(
    repo: Seq<char>,
    a: Seq<char>,
    b: Seq<char>,
    base: Seq<char>,
    prompt: Seq<char>,
    audio: bool,
    input: nat,
    answers: Seq<Answer>,
    at: nat,
)
    ensures
        summary::gia_with_log_step(repo, a, b, base, prompt, audio, input, answers, at) matches StepView::Ask(
            ask,
        ) ==> {
            &&& !asks_to_compare(ask)
            &&& ask matches AskView::Gia { args, input: i } ==> i == input && tells(
                ask,
                prompt,
                audio,
            )
        },
{
    lemma_words();
    lemma_gia_asks(repo, a, b, prompt, audio, None, input, answers, at + 1);
    if at + 1 < answers.len() {
        let meta = summary::written(answers[(at + 1) as int]);
        lemma_gia_asks(repo, a, b, prompt, audio, meta, input, answers, at + 2);
    }
}

/// Where an ask for a comparison, or a call of the AI tool on one, comes from.
proof fn lemma_gia_diff_asks(
    repo: Seq<char>,
    a: Seq<char>,
    b: Seq<char>,
    prompt: Seq<char>,
    with_log: bool,
    audio: bool,
    paths: Seq<Seq<char>>,
    answers: Seq<Answer>,
    at: nat,
) -> (k: nat)
    ensures
        summary::gia_diff_step(repo, a, b, prompt, with_log, audio, paths, answers, at) matches StepView::Ask(
            ask,
        ) ==> {
            &&& asks_to_compare(ask) ==> at <= k < answers.len() && compares(
                ask,
                repo,
                a,
                b,
                answers[k as int],
                paths,
            ) && summary::gia_diff_step(
                repo,
                a,
                b,
                prompt,
                with_log,
                audio,
                paths,
                answers.take(k as int),
                at,
            ) == StepView::<Seq<char>>::Ask(ancestor_question(repo, a, b))
            &&& ask matches AskView::Gia { args, input } ==> tells(ask, prompt, audio) && at <= input
                < answers.len() && (summary::gia_diff_step(
                repo,
                a,
                b,
                prompt,
                with_log,
                audio,
                paths,
                answers.take(input as int),
                at,
            ) matches StepView::Ask(before) && asks_to_compare(before))
        },
{
    lemma_words();
    match range::base_step(repo, a, b, answers, at) {
        StepView::Done(Ok(base), n) => {
            lemma_base_before(repo, a, b, answers, at, n);
            if n < answers.len() {
                lemma_commands(repo, a, b, answers[n as int], paths);
                lemma_base_before(repo, a, b, answers, at, n + 1);
                lemma_gia_asks(repo, a, b, prompt, audio, None, n + 1, answers, n + 2);
                lemma_gia_with_log_asks(
                    repo,
                    a,
                    b,
                    base,
                    prompt,
                    audio,
                    n + 1,
                    answers,
                    n + 2,
                );
                if n + 1 < answers.len() {
                    let now = answers.take((n + 1) as int);
                    assert(now[n as int] == answers[n as int]);
                    let ends = range::ordered(a, b, answers[n as int]);
                    assert(asks_to_compare(
                        AskView::GitOutput(range::diff_args(repo, ends.0, ends.1, paths)),
                    ));
                }
            }
            n
        },
        _ => 0,
    }
}

proof fn lemma_gia_log_asks(
    repo: Seq<char>,
    a: Seq<char>,
    b: Seq<char>,
    prompt: Seq<char>,
    audio: bool,
    answers: Seq<Answer>,
    at: nat,
)
    ensures
        summary::gia_log_step(repo, a, b, prompt, audio, answers, at) matches StepView::Ask(ask)
            ==> {
            &&& !asks_to_compare(ask)
            &&& ask matches AskView::Gia { args, input } ==> tells(ask, prompt, audio) && at <= input
                < answers.len() && (summary::gia_log_step(
                repo,
                a,
                b,
                prompt,
                audio,
                answers.take(input as int),
                at,
            ) matches StepView::Ask(before) && asks_for_log(before))
        },
{
    lemma_words();
    match range::base_step(repo, a, b, answers, at) {
        StepView::Done(Ok(base), n) => {
            lemma_base_before(repo, a, b, answers, at, n);
            if n < answers.len() {
                lemma_gia_asks(repo, a, b, prompt, audio, None, n, answers, n + 1);
            }
        },
        _ => {},
    }
}

/// Whether an ask has `git` print a log.
pub open spec fn asks_for_log(ask: AskView) -> bool {
    ask matches AskView::GitOutput(args) && args.len() > 2 && args[2] == "log"@
}

// ---------------------------------------------------------------------------------------------
// Requests
// ---------------------------------------------------------------------------------------------

/// The path and the parameters of a request.
pub open spec fn path_of(line: Seq<char>) -> Seq<char> {
    match server::request_target(line) {
        Some(t) => t.0,
        None => seq![],
    }
}

pub open spec fn value_of(line: Seq<char>, key: Seq<char>) -> Option<Seq<char>> {
    match server::request_target(line) {
        Some(t) => query::value(query::query_pairs(search::split(t.1, "&"@)), key),
        None => None,
    }
}

/// Whether `a` and `b` are the commits that a request is about: its parameters, or for the page of
/// a single commit the parent that `git` named and the commit.
pub open spec fn is_about(
    line: Seq<char>,
    answers: Seq<Answer>,
    a: Seq<char>,
    b: Seq<char>,
) -> bool {
    if path_of(line) == "/diff2html-single"@ {
        value_of(line, "commit"@) == Some(b) && answers.len() > 0 && a == range::first_parent(
            answers[0],
        )
    } else {
        value_of(line, "from"@) == Some(a) && value_of(line, "to"@) == Some(b)
    }
}

/// The paths that a request is limited to.
pub open spec fn limited_to(line: Seq<char>) -> Seq<Seq<char>> {
    match value_of(line, "filter"@) {
        Some(v) => query::filter_pathspecs(v),
        None => query::filter_pathspecs(seq![]),
    }
}

/// No other request has `git` compare or calls the AI tool.
proof fn lemma_others(
    s: Server,
    path: Seq<char>,
    pairs: Seq<(Seq<char>, Seq<char>)>,
    answers: Seq<Answer>,
)
    requires
        path != "/diff"@,
        path != "/log-summary"@,
        path != "/diff2html"@,
        path != "/diff2html-single"@,
    ensures
        server::route(s, path, pairs, answers) matches StepView::Ask(ask) ==> !asks_to_compare(ask)
            && !(ask is Gia),
{
    lemma_words();
    lemma_git_log(s, pairs, answers);
    lemma_changes(s, pairs, answers);
}

proof fn lemma_git_log(s: Server, pairs: Seq<(Seq<char>, Seq<char>)>, answers: Seq<Answer>)
    ensures
        server::git_log_step(s, pairs, answers) matches StepView::Ask(ask) ==> !asks_to_compare(ask)
            && !(ask is Gia),
{
    lemma_words();
}

proof fn lemma_changes(s: Server, pairs: Seq<(Seq<char>, Seq<char>)>, answers: Seq<Answer>)
    ensures
        server::checkout_step(s, pairs, answers) matches StepView::Ask(ask) ==> !asks_to_compare(
            ask,
        ) && !(ask is Gia),
        server::delete_branch_step(s, pairs, answers) matches StepView::Ask(ask)
            ==> !asks_to_compare(ask) && !(ask is Gia),
        server::delete_tag_step(s, pairs, answers) matches StepView::Ask(ask) ==> !asks_to_compare(
            ask,
        ) && !(ask is Gia),
{
    lemma_words();
}

proof fn lemma_single_compares(
    s: Server,
    pairs: Seq<(Seq<char>, Seq<char>)>,
    commit: Seq<char>,
    answers: Seq<Answer>,
    ask: AskView,
) -> (k: nat)
    requires
        server::sha_param(pairs, "commit"@) == Some(commit),
        server::single_step(s, pairs, answers) == StepView::<server::ReplyView>::Ask(ask),
        asks_to_compare(ask),
    ensures
        0 < k < answers.len(),
        server::single_step(s, pairs, answers.take(k as int)) == StepView::<
            server::ReplyView,
        >::Ask(ancestor_question(s.repo_path@, range::first_parent(answers[0]), commit)),
        compares(
            ask,
            s.repo_path@,
            range::first_parent(answers[0]),
            commit,
            answers[k as int],
            query::filter_pathspecs(server::filter_param(pairs)),
        ),
{
    lemma_words();
    let parent = range::first_parent(answers[0]);
    let q = server::diff_request(s, parent, commit, server::filter_param(pairs));
    match range::child_step(s.repo_path@, commit, answers, 2) {
        StepView::Done(newer, n) => {
            lemma_child_before(s.repo_path@, commit, answers, 2, n);
            law_page_compares_older_with_newer(q, answers, n);
            let now = answers.take(n as int);
            assert(now[0] == answers[0] && now[1] == answers[1]);
            n
        },
        _ => 0,
    }
}

proof fn lemma_diff2html_compares(
    s: Server,
    pairs: Seq<(Seq<char>, Seq<char>)>,
    a: Seq<char>,
    b: Seq<char>,
    answers: Seq<Answer>,
    ask: AskView,
)
    requires
        server::range_param(pairs, ""@) == Ok::<(Seq<char>, Seq<char>), Seq<char>>((a, b)),
        server::diff2html_step(s, pairs, answers) == StepView::<server::ReplyView>::Ask(ask),
        asks_to_compare(ask),
    ensures
        answers.len() > 1,
        server::diff2html_step(s, pairs, answers.take(1)) == StepView::<server::ReplyView>::Ask(
            ancestor_question(s.repo_path@, a, b),
        ),
        compares(
            ask,
            s.repo_path@,
            a,
            b,
            answers[1],
            query::filter_pathspecs(server::filter_param(pairs)),
        ),
{
    lemma_words();
    let q = server::diff_request(s, a, b, server::filter_param(pairs));
    if answers.len() > 0 {
        law_page_compares_older_with_newer(q, answers, 1);
        assert(answers.take(1)[0] == answers[0]);
    }
}

/// What the question that decides how a request compares is about.
spec fn decides(
    step: StepView<server::ReplyView>,
    ask: AskView,
    s: Server,
    pairs: Seq<(Seq<char>, Seq<char>)>,
    answer: Answer,
    a: Seq<char>,
    b: Seq<char>,
) -> bool {
    &&& step == StepView::<server::ReplyView>::Ask(ancestor_question(s.repo_path@, a, b))
    &&& compares(
        ask,
        s.repo_path@,
        a,
        b,
        answer,
        query::filter_pathspecs(server::filter_param(pairs)),
    )
}

proof fn lemma_log_summary_route(
    s: Server,
    pairs: Seq<(Seq<char>, Seq<char>)>,
    answers: Seq<Answer>,
    ask: AskView,
) -> (r: (nat, Seq<char>, Seq<char>))
    requires
        server::log_summary_step(s, pairs, answers) == StepView::<server::ReplyView>::Ask(ask),
        asks_to_compare(ask),
    ensures
        r.0 < answers.len(),
        decides(
            server::log_summary_step(s, pairs, answers.take(r.0 as int)),
            ask,
            s,
            pairs,
            answers[r.0 as int],
            r.1,
            r.2,
        ),
        query::value(pairs, "from"@) == Some(r.1) && query::value(pairs, "to"@) == Some(r.2),
{
    match server::range_param(pairs, ""@) {
        Ok(ends) => {
            let k = lemma_log_summary_compares(s, pairs, ends.0, ends.1, answers, ask);
            (k, ends.0, ends.1)
        },
        Err(e) => (0, seq![], seq![]),
    }
}

proof fn lemma_diff2html_route(
    s: Server,
    pairs: Seq<(Seq<char>, Seq<char>)>,
    answers: Seq<Answer>,
    ask: AskView,
) -> (r: (nat, Seq<char>, Seq<char>))
    requires
        server::diff2html_step(s, pairs, answers) == StepView::<server::ReplyView>::Ask(ask),
        asks_to_compare(ask),
    ensures
        r.0 < answers.len(),
        decides(
            server::diff2html_step(s, pairs, answers.take(r.0 as int)),
            ask,
            s,
            pairs,
            answers[r.0 as int],
            r.1,
            r.2,
        ),
        query::value(pairs, "from"@) == Some(r.1) && query::value(pairs, "to"@) == Some(r.2),
{
    match server::range_param(pairs, ""@) {
        Ok(ends) => {
            lemma_diff2html_compares(s, pairs, ends.0, ends.1, answers, ask);
            (1, ends.0, ends.1)
        },
        Err(e) => (0, seq![], seq![]),
    }
}

proof fn lemma_single_route(
    s: Server,
    pairs: Seq<(Seq<char>, Seq<char>)>,
    answers: Seq<Answer>,
    ask: AskView,
) -> (r: (nat, Seq<char>, Seq<char>))
    requires
        server::single_step(s, pairs, answers) == StepView::<server::ReplyView>::Ask(ask),
        asks_to_compare(ask),
    ensures
        r.0 < answers.len(),
        decides(
            server::single_step(s, pairs, answers.take(r.0 as int)),
            ask,
            s,
            pairs,
            answers[r.0 as int],
            r.1,
            r.2,
        ),
        query::value(pairs, "commit"@) == Some(r.2) && r.1 == range::first_parent(answers[0]),
{
    match server::sha_param(pairs, "commit"@) {
        Some(commit) => {
            let k = lemma_single_compares(s, pairs, commit, answers, ask);
            (k, range::first_parent(answers[0]), commit)
        },
        None => (0, seq![], seq![]),
    }
}

/// Which step a path leads to.
proof fn lemma_routes(
    s: Server,
    path: Seq<char>,
    pairs: Seq<(Seq<char>, Seq<char>)>,
    answers: Seq<Answer>,
)
    ensures
        path == "/diff"@ ==> server::route(s, path, pairs, answers) == server::diff_step(
            s,
            pairs,
            answers,
        ),
        path == "/log-summary"@ ==> server::route(s, path, pairs, answers)
            == server::log_summary_step(s, pairs, answers),
        path == "/diff2html"@ ==> server::route(s, path, pairs, answers) == server::diff2html_step(
            s,
            pairs,
            answers,
        ),
        path == "/diff2html-single"@ ==> server::route(s, path, pairs, answers)
            == server::single_step(s, pairs, answers),
{
    reveal_strlit("/diff2html-single");
    reveal_strlit("/diff");
    reveal_strlit("/log-summary");
    reveal_strlit("/log");
    reveal_strlit("/diff2html");
    reveal_strlit("/heartbeat");
    reveal_strlit("/view");
    reveal_strlit("/version");
    reveal_strlit("/checkout");
    reveal_strlit("/delete-branch");
    reveal_strlit("/delete-tag");
    assert("/diff2html-single"@.len() == 17);
    assert("/diff"@.len() == 5 && "/diff"@[1] == 'd');
    assert("/log-summary"@.len() == 12);
    assert("/log"@.len() == 4);
    assert("/diff2html"@.len() == 10 && "/diff2html"@[1] == 'd');
    assert("/heartbeat"@.len() == 10 && "/heartbeat"@[1] == 'h');
    assert("/view"@.len() == 5 && "/view"@[1] == 'v');
    assert("/version"@.len() == 8);
    assert("/checkout"@.len() == 9);
    assert("/delete-branch"@.len() == 14);
    assert("/delete-tag"@.len() == 11);
}

/// Where the question comes from that decides how a request compares.
proof fn lemma_route_compares(
    s: Server,
    path: Seq<char>,
    pairs: Seq<(Seq<char>, Seq<char>)>,
    answers: Seq<Answer>,
    ask: AskView,
) -> (r: (nat, Seq<char>, Seq<char>))
    requires
        server::route(s, path, pairs, answers) == StepView::<server::ReplyView>::Ask(ask),
        asks_to_compare(ask),
    ensures
        r.0 < answers.len(),
        decides(
            server::route(s, path, pairs, answers.take(r.0 as int)),
            ask,
            s,
            pairs,
            answers[r.0 as int],
            r.1,
            r.2,
        ),
        if path == "/diff2html-single"@ {
            query::value(pairs, "commit"@) == Some(r.2) && r.1 == range::first_parent(answers[0])
        } else {
            query::value(pairs, "from"@) == Some(r.1) && query::value(pairs, "to"@) == Some(r.2)
        },
{
    lemma_paths();
    lemma_routes(s, path, pairs, answers);
    let r = if path == "/diff"@ {
        lemma_diff_route(s, pairs, answers, ask)
    } else if path == "/log-summary"@ {
        lemma_log_summary_route(s, pairs, answers, ask)
    } else if path == "/diff2html"@ {
        lemma_diff2html_route(s, pairs, answers, ask)
    } else if path == "/diff2html-single"@ {
        lemma_single_route(s, pairs, answers, ask)
    } else {
        lemma_others(s, path, pairs, answers);
        (0, seq![], seq![])
    };
    lemma_routes(s, path, pairs, answers.take(r.0 as int));
    r
}

proof fn lemma_diff_route(
    s: Server,
    pairs: Seq<(Seq<char>, Seq<char>)>,
    answers: Seq<Answer>,
    ask: AskView,
) -> (r: (nat, Seq<char>, Seq<char>))
    requires
        server::diff_step(s, pairs, answers) == StepView::<server::ReplyView>::Ask(ask),
        asks_to_compare(ask),
    ensures
        r.0 < answers.len(),
        decides(
            server::diff_step(s, pairs, answers.take(r.0 as int)),
            ask,
            s,
            pairs,
            answers[r.0 as int],
            r.1,
            r.2,
        ),
        query::value(pairs, "from"@) == Some(r.1) && query::value(pairs, "to"@) == Some(r.2),
{
    match server::range_param(pairs, " parameter"@) {
        Ok(ends) => {
            let with_log = !server::switched_on(pairs, "nolog"@);
            let filter = server::filter_param(pairs);
            if server::switched_on(pairs, "ai"@) {
                let k = lemma_diff_summary_compares(
                    s,
                    ends.0,
                    ends.1,
                    with_log,
                    filter,
                    answers,
                    ask,
                );
                (k, ends.0, ends.1)
            } else {
                (0, seq![], seq![])
            }
        },
        Err(e) => (0, seq![], seq![]),
    }
}

/// Whenever a request has `git` compare two commits, they are those that the request is about, in
/// the paths that it is limited to, the older one before the newer one: an earlier question was
/// whether the first is an ancestor of the second, and its answer decides.
pub proof fn law_requests_compare_older_with_newer(
    s: Server,
    line: Seq<char>,
    answers: Seq<Answer>,
    ask: AskView,
)
    requires
        server::request_step(s, line, answers) == StepView::<server::ReplyView>::Ask(ask),
        asks_to_compare(ask),
    ensures
        exists|k: int, a: Seq<char>, b: Seq<char>|
            {
                &&& 0 <= k < answers.len()
                &&& is_about(line, answers, a, b)
                &&& #[trigger] server::request_step(s, line, answers.take(k)) == StepView::<
                    server::ReplyView,
                >::Ask(#[trigger] ancestor_question(s.repo_path@, a, b))
                &&& compares(ask, s.repo_path@, a, b, answers[k], limited_to(line))
            },
{
    match server::request_target(line) {
        Some(t) => {
            let pairs = query::query_pairs(search::split(t.1, "&"@));
            let r = lemma_route_compares(s, t.0, pairs, answers, ask);
            let k = r.0 as int;
            assert(is_about(line, answers, r.1, r.2));
            assert(server::request_step(s, line, answers.take(k)) == StepView::<
                server::ReplyView,
            >::Ask(ancestor_question(s.repo_path@, r.1, r.2)));
        },
        None => {},
    }
}

proof fn lemma_paths()
    ensures
        "/diff2html-single"@ != "/diff"@,
        "/diff2html-single"@ != "/log-summary"@,
        "/diff2html-single"@ != "/diff2html"@,
        "/diff"@ != "/log-summary"@,
        "/diff"@ != "/log"@,
        "/diff"@ != "/diff2html"@,
{
    reveal_strlit("/diff2html-single");
    reveal_strlit("/diff");
    reveal_strlit("/log-summary");
    reveal_strlit("/log");
    reveal_strlit("/diff2html");
    assert("/diff2html-single"@.len() == 17);
    assert("/diff"@.len() == 5);
    assert("/log-summary"@.len() == 12);
    assert("/log"@.len() == 4);
    assert("/diff2html"@.len() == 10);
}

proof fn lemma_summary_reply_compares(
    s: Server,
    a: Seq<char>,
    b: Seq<char>,
    filter: Seq<char>,
    said: Seq<char>,
    answers: Seq<Answer>,
    at: nat,
)
    requires
        at <= answers.len(),
    ensures
        server::summary_reply(s, a, b, filter, said, answers, at) matches StepView::Ask(ask) ==> {
            &&& !(ask is Gia)
            &&& asks_to_compare(ask) ==> at < answers.len() && compares(
                ask,
                s.repo_path@,
                a,
                b,
                answers[at as int],
                query::filter_pathspecs(filter),
            ) && server::summary_reply(s, a, b, filter, said, answers.take(at as int), at)
                == StepView::<server::ReplyView>::Ask(ancestor_question(s.repo_path@, a, b))
        },
{
    law_section_compares_older_with_newer(server::diff_request(s, a, b, filter), answers, at);
}

proof fn lemma_diff_summary_compares(
    s: Server,
    a: Seq<char>,
    b: Seq<char>,
    with_log: bool,
    filter: Seq<char>,
    answers: Seq<Answer>,
    ask: AskView,
) -> (k: nat)
    requires
        server::diff_summary_step(s, a, b, with_log, filter, answers) == StepView::<
            server::ReplyView,
        >::Ask(ask),
        asks_to_compare(ask),
    ensures
        k < answers.len(),
        server::diff_summary_step(s, a, b, with_log, filter, answers.take(k as int)) == StepView::<
            server::ReplyView,
        >::Ask(ancestor_question(s.repo_path@, a, b)),
        compares(ask, s.repo_path@, a, b, answers[k as int], query::filter_pathspecs(filter)),
{
    let paths = query::filter_pathspecs(filter);
    let p = prompt::effective_prompt(
        server::diff_prompt(s, answers[1]),
        s.lang@,
        s.gia_audio,
    );
    let k = lemma_gia_diff_asks(
        s.repo_path@,
        a,
        b,
        p,
        with_log,
        s.gia_audio,
        paths,
        answers,
        2,
    );
    match summary::gia_diff_step(
        s.repo_path@,
        a,
        b,
        p,
        with_log,
        s.gia_audio,
        paths,
        answers,
        2,
    ) {
        StepView::Ask(x) => {
            let now = answers.take(k as int);
            assert(now[0] == answers[0] && now[1] == answers[1]);
            k
        },
        StepView::Done(said, n) => {
            lemma_gia_diff_before(
                s.repo_path@,
                a,
                b,
                p,
                with_log,
                s.gia_audio,
                paths,
                answers,
                2,
                n,
            );
            lemma_summary_reply_compares(s, a, b, filter, said, answers, n);
            let now = answers.take(n as int);
            assert(now[0] == answers[0] && now[1] == answers[1]);
            n
        },
    }
}

proof fn lemma_log_summary_compares(
    s: Server,
    pairs: Seq<(Seq<char>, Seq<char>)>,
    a: Seq<char>,
    b: Seq<char>,
    answers: Seq<Answer>,
    ask: AskView,
) -> (k: nat)
    requires
        server::range_param(pairs, ""@) == Ok::<(Seq<char>, Seq<char>), Seq<char>>((a, b)),
        server::log_summary_step(s, pairs, answers) == StepView::<server::ReplyView>::Ask(ask),
        asks_to_compare(ask),
    ensures
        k < answers.len(),
        server::log_summary_step(s, pairs, answers.take(k as int)) == StepView::<
            server::ReplyView,
        >::Ask(ancestor_question(s.repo_path@, a, b)),
        compares(
            ask,
            s.repo_path@,
            a,
            b,
            answers[k as int],
            query::filter_pathspecs(server::filter_param(pairs)),
        ),
{
    let filter = server::filter_param(pairs);
    let p = prompt::effective_prompt(server::log_prompt(s), s.lang@, s.gia_audio);
    lemma_gia_log_asks(s.repo_path@, a, b, p, s.gia_audio, answers, 1);
    match summary::gia_log_step(s.repo_path@, a, b, p, s.gia_audio, answers, 1) {
        StepView::Ask(x) => 0,
        StepView::Done(said, n) => {
            lemma_gia_log_before(s.repo_path@, a, b, p, s.gia_audio, answers, 1, n);
            lemma_summary_reply_compares(s, a, b, filter, said, answers, n);
            let now = answers.take(n as int);
            assert(now[0] == answers[0]);
            n
        },
    }
}

/// What the AI tool is told for a request: the prompt of the server, if it has one of its own,
/// whatever has been answered. Without one, a diff is summarised with the prompt that was loaded,
/// if that went well, else with the default, and a log always with the default.
pub open spec fn told_first(s: Server, line: Seq<char>, answers: Seq<Answer>) -> Seq<char> {
    match s.prompt {
        Some(p) => p@,
        None => if path_of(line) == "/diff"@ {
            if answers[1].error is None && answers[1].success {
                answers[1].stdout@
            } else {
                prompt::DEFAULT_DIFF_PROMPT@
            }
        } else {
            prompt::DEFAULT_LOG_PROMPT@
        },
    }
}

proof fn lemma_diff_tells(
    s: Server,
    pairs: Seq<(Seq<char>, Seq<char>)>,
    answers: Seq<Answer>,
    ask: AskView,
)
    requires
        server::diff_step(s, pairs, answers) == StepView::<server::ReplyView>::Ask(ask),
        ask is Gia,
    ensures
        answers.len() > 1,
        tells(
            ask,
            prompt::effective_prompt(server::diff_prompt(s, answers[1]), s.lang@, s.gia_audio),
            s.gia_audio,
        ),
        ask matches AskView::Gia { args, input } && input < answers.len() && (server::diff_step(
            s,
            pairs,
            answers.take(input as int),
        ) matches StepView::Ask(before) && asks_to_compare(before)),
{
    match server::range_param(pairs, " parameter"@) {
        Ok(ends) => {
            let a = ends.0;
            let b = ends.1;
            let filter = server::filter_param(pairs);
            let with_log = !server::switched_on(pairs, "nolog"@);
            let paths = query::filter_pathspecs(filter);
            if answers.len() > 1 {
                let told = prompt::effective_prompt(
                    server::diff_prompt(s, answers[1]),
                    s.lang@,
                    s.gia_audio,
                );
                let k = lemma_gia_diff_asks(
                    s.repo_path@,
                    a,
                    b,
                    told,
                    with_log,
                    s.gia_audio,
                    paths,
                    answers,
                    2,
                );
                match summary::gia_diff_step(
                    s.repo_path@,
                    a,
                    b,
                    told,
                    with_log,
                    s.gia_audio,
                    paths,
                    answers,
                    2,
                ) {
                    StepView::Ask(x) => {
                        let now = answers.take(ask->input as int);
                        assert(now[0] == answers[0] && now[1] == answers[1]);
                    },
                    StepView::Done(said, n) => {
                        lemma_gia_diff_before(
                            s.repo_path@,
                            a,
                            b,
                            told,
                            with_log,
                            s.gia_audio,
                            paths,
                            answers,
                            2,
                            n,
                        );
                        lemma_summary_reply_compares(s, a, b, filter, said, answers, n);
                    },
                }
            }
        },
        Err(e) => {},
    }
}

proof fn lemma_log_summary_tells(
    s: Server,
    pairs: Seq<(Seq<char>, Seq<char>)>,
    answers: Seq<Answer>,
    ask: AskView,
)
    requires
        server::log_summary_step(s, pairs, answers) == StepView::<server::ReplyView>::Ask(ask),
        ask is Gia,
    ensures
        tells(
            ask,
            prompt::effective_prompt(server::log_prompt(s), s.lang@, s.gia_audio),
            s.gia_audio,
        ),
        ask matches AskView::Gia { args, input } && input < answers.len() && (
        server::log_summary_step(s, pairs, answers.take(input as int)) matches StepView::Ask(before)
            && asks_for_log(before)),
{
    match server::range_param(pairs, ""@) {
        Ok(ends) => {
            let a = ends.0;
            let b = ends.1;
            let told = prompt::effective_prompt(server::log_prompt(s), s.lang@, s.gia_audio);
            lemma_gia_log_asks(s.repo_path@, a, b, told, s.gia_audio, answers, 1);
            match summary::gia_log_step(s.repo_path@, a, b, told, s.gia_audio, answers, 1) {
                StepView::Ask(x) => {
                    if answers.len() > 0 {
                        let now = answers.take(ask->input as int);
                        assert(now[0] == answers[0]);
                    }
                },
                StepView::Done(said, n) => {
                    lemma_gia_log_before(s.repo_path@, a, b, told, s.gia_audio, answers, 1, n);
                    lemma_summary_reply_compares(
                        s,
                        a,
                        b,
                        server::filter_param(pairs),
                        said,
                        answers,
                        n,
                    );
                },
            }
        },
        Err(e) => {},
    }
}

proof fn lemma_page_is_silent(q: DiffView, answers: Seq<Answer>, at: nat)
    ensures
        diff_page::page_step(q, answers, at) matches StepView::Ask(ask) ==> !(ask is Gia),
{
}

proof fn lemma_pages_are_silent(
    s: Server,
    pairs: Seq<(Seq<char>, Seq<char>)>,
    answers: Seq<Answer>,
)
    ensures
        server::diff2html_step(s, pairs, answers) matches StepView::Ask(ask) ==> !(ask is Gia),
        server::single_step(s, pairs, answers) matches StepView::Ask(ask) ==> !(ask is Gia),
{
    let filter = server::filter_param(pairs);
    match server::range_param(pairs, ""@) {
        Ok(ends) => {
            lemma_page_is_silent(server::diff_request(s, ends.0, ends.1, filter), answers, 1);
        },
        Err(e) => {},
    }
    match server::sha_param(pairs, "commit"@) {
        Some(commit) => {
            if answers.len() > 0 {
                let q = server::diff_request(
                    s,
                    range::first_parent(answers[0]),
                    commit,
                    filter,
                );
                match range::child_step(s.repo_path@, commit, answers, 2) {
                    StepView::Done(newer, n) => {
                        lemma_page_is_silent(q, answers, n);
                    },
                    _ => {},
                }
            }
        },
        None => {},
    }
}

proof fn lemma_prompt_parts(first: Seq<char>, lang: Seq<char>, audio: bool)
    ensures
        first.is_prefix_of(prompt::effective_prompt(first, lang, audio)),
        (first + "\nRespond in the language of locale: "@ + lang + "."@).is_prefix_of(
            prompt::effective_prompt(first, lang, audio),
        ),
        !audio ==> prompt::effective_prompt(first, lang, audio) == first
            + "\nRespond in the language of locale: "@ + lang + "."@,
{
    let whole = first + "\nRespond in the language of locale: "@ + lang + "."@;
    let told = prompt::effective_prompt(first, lang, audio);
    assert(first =~= whole.subrange(0, first.len() as int));
    assert(whole =~= told.subrange(0, whole.len() as int));
    assert(first =~= told.subrange(0, first.len() as int));
}

/// Every call of the AI tool, for a diff as for a log, carries a prompt that begins with that of
/// the server, if it has one of its own, and goes on with the language to answer in. What it reads
/// is what `git` printed for an earlier ask: the comparison for a diff, the log for a log.
#[verifier::rlimit(30)]
pub proof fn law_prompt_of_the_server_is_used(
    s: Server,
    line: Seq<char>,
    answers: Seq<Answer>,
    args: Seq<Seq<char>>,
    input: nat,
)
    requires
        server::request_step(s, line, answers) == StepView::<server::ReplyView>::Ask(
            AskView::Gia { args, input },
        ),
    ensures
        args.len() >= 2,
        args[0] == "--markdown"@,
        s.prompt matches Some(p) ==> p@.is_prefix_of(args[1]),
        (told_first(s, line, answers) + "\nRespond in the language of locale: "@ + s.lang@
            + "."@).is_prefix_of(args[1]),
        !s.gia_audio ==> args[1] == told_first(s, line, answers)
            + "\nRespond in the language of locale: "@ + s.lang@ + "."@,
        s.gia_audio ==> args.len() >= 5 && args[2] == "-a"@ && args[3] == "--audio-dialog-text"@,
        !s.gia_audio ==> args.len() == 2 || args[2] == "-f"@,
        path_of(line) == "/diff"@ || path_of(line) == "/log-summary"@,
        input < answers.len(),
        server::request_step(s, line, answers.take(input as int)) matches StepView::Ask(before)
            && if path_of(line) == "/diff"@ {
            asks_to_compare(before)
        } else {
            asks_for_log(before)
        },
{
    lemma_paths();
    let ask = AskView::Gia { args, input };
    match server::request_target(line) {
        Some(t) => {
            let pairs = query::query_pairs(search::split(t.1, "&"@));
            lemma_prompt_parts(told_first(s, line, answers), s.lang@, s.gia_audio);
            if t.0 == "/diff"@ {
                lemma_diff_tells(s, pairs, answers, ask);
            } else if t.0 == "/log-summary"@ {
                lemma_log_summary_tells(s, pairs, answers, ask);
            } else if t.0 == "/diff2html"@ || t.0 == "/diff2html-single"@ {
                lemma_pages_are_silent(s, pairs, answers);
            } else {
                lemma_others(s, t.0, pairs, answers);
            }
        },
        None => {},
    }
}

// ---------------------------------------------------------------------------------------------
// Large diffs, and logs
// ---------------------------------------------------------------------------------------------

/// Whether an ask has `git` print the changes, and not only the names of the files.
pub open spec fn asks_for_changes(ask: AskView) -> bool {
    ask matches AskView::GitOutput(args) && args.len() > 3 && args[2] == "diff"@ && args[3] == "-w"@
}

/// Without a limit on the number of files the changes are asked for at once. With one the names of
/// the files come first: where they are within the limit the changes are asked for next, and
/// where they are not, never.
pub proof fn law_large_diffs_are_left_out(q: DiffView, answers: Seq<Answer>, at: nat)
    requires
        at < answers.len(),
    ensures
        q.max_files == 0 ==> (diff_page::page_step(q, answers.take((at + 1) as int), at) matches StepView::Ask(
            ask,
        ) && asks_for_changes(ask)),
        q.max_files > 0 ==> (diff_page::page_step(q, answers.take((at + 1) as int), at) matches StepView::Ask(
            ask,
        ) && asks_to_compare(ask) && !asks_for_changes(ask)),
        q.max_files > 0 && at + 1 < answers.len() ==> {
            let answer = answers[(at + 1) as int];
            let files = if answer.error is None {
                lines::lines(answer.stdout@).len()
            } else {
                0
            };
            &&& files <= q.max_files ==> (diff_page::page_step(
                q,
                answers.take((at + 2) as int),
                at,
            ) matches StepView::Ask(ask) && asks_for_changes(ask))
            &&& files > q.max_files ==> (diff_page::page_step(q, answers, at) matches StepView::Ask(
                ask,
            ) ==> !asks_to_compare(ask))
        },
{
    lemma_words();
    reveal_strlit("");
    let ends = range::ordered(q.sha1, q.sha2, answers[at as int]);
    lemma_with_paths(seq!["-C"@, q.repo, "diff"@, "-w"@, ends.0, ends.1], q.paths);
    lemma_with_paths(
        seq!["-C"@, q.repo, "diff"@, "--name-only"@, "-w"@, ends.0, ends.1],
        q.paths,
    );
    assert(asks_for_changes(
        AskView::GitOutput(range::diff_args(q.repo, ends.0, ends.1, q.paths)),
    ));
    let names = AskView::GitOutput(range::names_args(q.repo, ends.0, ends.1, q.paths));
    assert(asks_to_compare(names) && !asks_for_changes(names));
    assert(answers.take((at + 1) as int)[at as int] == answers[at as int]);
    if at + 1 < answers.len() {
        assert(answers.take((at + 2) as int)[at as int] == answers[at as int]);
        assert(answers.take((at + 2) as int)[(at + 1) as int] == answers[(at + 1) as int]);
        assert(lines::lines(Seq::<char>::empty()).len() == 0);
    }
}

/// The logs of a page go back from both commits to where they part: to what `git` named as their
/// common ancestor when it was asked for that, or, where it named none, to the older one.
pub proof fn law_page_logs_go_back_to_the_common_ancestor(
    q: DiffView,
    answers: Seq<Answer>,
    at: nat,
    ask: AskView,
) -> (k: nat)
    requires
        diff_page::page_step(q, answers, at) == StepView::<Result<Seq<char>, Seq<char>>>::Ask(ask),
        asks_for_log(ask),
    ensures
        at < k < answers.len(),
        diff_page::page_step(q, answers.take(k as int), at) == StepView::<
            Result<Seq<char>, Seq<char>>,
        >::Ask(AskView::GitOutput(seq!["-C"@, q.repo, "merge-base"@, q.sha1, q.sha2])),
        ({
            let named = answers[k as int];
            let asked = answers[at as int];
            let base = if named.error is None && named.success && named.utf8 && lines::trim(
                named.stdout@,
            ).len() > 0 {
                lines::trim(named.stdout@)
            } else if asked.error is None && asked.success {
                q.sha1
            } else {
                q.sha2
            };
            ask == AskView::GitOutput(
                seq!["-C"@, q.repo, "log"@, range::LOG_FORMAT@, "^"@ + base, q.sha1, q.sha2],
            ) || ask == AskView::GitOutput(
                seq![
                    "-C"@,
                    q.repo,
                    "log"@,
                    "--format=COMMIT %h"@,
                    "--name-only"@,
                    "^"@ + base,
                    q.sha1,
                    q.sha2,
                ],
            )
        }),
{
    lemma_words();
    match diff_page::head_step(q, answers, at) {
        StepView::Done(head, n) => {
            let k = if head.too_many is Some {
                n
            } else {
                n + 1
            };
            if k <= answers.len() {
                lemma_head_before(q, answers, at, k);
                let now = answers.take(k as int);
                assert(forall|i: int| 0 <= i < k ==> now[i] == answers[i]);
            }
            k
        },
        _ => 0,
    }
}

/// Where the history of two commits is asked to begin: at the first of them if it is an ancestor of
/// the second one, else at what `git` named as their common ancestor. Both were asked for.
pub proof fn law_ranges_begin_at_the_common_ancestor(
    repo: Seq<char>,
    a: Seq<char>,
    b: Seq<char>,
    answers: Seq<Answer>,
    at: nat,
)
    requires
        at <= answers.len(),
    ensures
        range::base_step(repo, a, b, answers.take(at as int), at) == StepView::<
            Result<Seq<char>, Seq<char>>,
        >::Ask(ancestor_question(repo, a, b)),
        range::base_step(repo, a, b, answers, at) matches StepView::Done(Ok(base), n) ==> {
            ||| answers[at as int].error is None && answers[at as int].success && base == a && n
                == at + 1
            ||| {
                &&& answers[at as int].error is None && !answers[at as int].success && n == at + 2
                &&& range::base_step(repo, a, b, answers.take((at + 1) as int), at) == StepView::<
                    Result<Seq<char>, Seq<char>>,
                >::Ask(AskView::GitOutput(seq!["-C"@, repo, "merge-base"@, a, b]))
                &&& answers[(at + 1) as int].error is None && answers[(at + 1) as int].success
                &&& base == lines::trim(answers[(at + 1) as int].stdout@) && base.len() > 0
            }
        },
        range::base_step(repo, a, b, answers, at) matches StepView::Done(Err(e), n)
            ==> answers[at as int].error is Some || (!answers[at as int].success && (answers[(at + 1) as int].error is Some || !answers[(at + 1) as int].success || lines::trim(
            answers[(at + 1) as int].stdout@,
        ).len() == 0)),
{
}

/// The log that is served goes back from both commits to where their history begins.
pub proof fn law_served_log_begins_at_the_common_ancestor(
    repo: Seq<char>,
    a: Seq<char>,
    b: Seq<char>,
    theme: Theme,
    answers: Seq<Answer>,
    at: nat,
    base: Seq<char>,
    n: nat,
)
    requires
        range::base_step(repo, a, b, answers, at) == StepView::<
            Result<Seq<char>, Seq<char>>,
        >::Done(Ok(base), n),
    ensures
        n <= answers.len(),
        diff_page::log_step(repo, a, b, theme, answers.take(n as int), at) == StepView::<
            Seq<char>,
        >::Ask(
            AskView::GitOutput(
                seq!["-C"@, repo, "log"@, range::LOG_FORMAT@, "^"@ + base, a, b],
            ),
        ),
{
    lemma_base_before(repo, a, b, answers, at, n);
}

/// The log that the AI tool is given goes back from both commits to where their history begins.
pub proof fn law_summarised_log_begins_at_the_common_ancestor(
    repo: Seq<char>,
    a: Seq<char>,
    b: Seq<char>,
    told: Seq<char>,
    audio: bool,
    answers: Seq<Answer>,
    at: nat,
    base: Seq<char>,
    n: nat,
)
    requires
        range::base_step(repo, a, b, answers, at) == StepView::<
            Result<Seq<char>, Seq<char>>,
        >::Done(Ok(base), n),
    ensures
        n <= answers.len(),
        summary::gia_log_step(repo, a, b, told, audio, answers.take(n as int), at) == StepView::<
            Seq<char>,
        >::Ask(
            AskView::GitOutput(
                seq![
                    "-C"@,
                    repo,
                    "log"@,
                    prompt::GIT_LOG_METADATA_FORMAT@,
                    "--name-status"@,
                    "^"@ + base,
                    a,
                    b,
                ],
            ),
        ),
{
    lemma_base_before(repo, a, b, answers, at, n);
}

// ---------------------------------------------------------------------------------------------
// Where `git` is run
// ---------------------------------------------------------------------------------------------

/// Whether an ask that runs `git` runs it in `repo`.
pub open spec fn runs_in(ask: AskView, repo: Seq<char>) -> bool {
    match ask {
        AskView::GitStatus(args) => args.len() > 2 && args[0] == "-C"@ && args[1] == repo,
        AskView::GitOutput(args) => args.len() > 2 && args[0] == "-C"@ && args[1] == repo,
        AskView::GitSpawn(args) => args.len() > 2 && args[0] == "-C"@ && args[1] == repo,
        _ => true,
    }
}

proof fn lemma_runs_in(
    repo: Seq<char>,
    a: Seq<char>,
    b: Seq<char>,
    paths: Seq<Seq<char>>,
)
    ensures
        runs_in(AskView::GitStatus(range::quiet_args(repo, a, b, paths)), repo),
        runs_in(AskView::GitOutput(range::names_args(repo, a, b, paths)), repo),
        runs_in(AskView::GitOutput(range::diff_args(repo, a, b, paths)), repo),
{
    lemma_with_paths(seq!["-C"@, repo, "diff"@, "--quiet"@, a, b], paths);
    lemma_with_paths(seq!["-C"@, repo, "diff"@, "-w"@, a, b], paths);
    lemma_with_paths(seq!["-C"@, repo, "diff"@, "--name-only"@, "-w"@, a, b], paths);
}

proof fn lemma_section_runs_in(q: DiffView, answers: Seq<Answer>, at: nat)
    ensures
        diff_page::section_step(q, answers, at) matches StepView::Ask(ask) ==> runs_in(ask, q.repo),
        diff_page::page_step(q, answers, at) matches StepView::Ask(ask) ==> runs_in(ask, q.repo),
{
    lemma_runs_in(q.repo, q.sha1, q.sha2, q.paths);
    lemma_runs_in(q.repo, q.sha2, q.sha1, q.paths);
}

proof fn lemma_summary_reply_runs_in(
    s: Server,
    a: Seq<char>,
    b: Seq<char>,
    filter: Seq<char>,
    said: Seq<char>,
    answers: Seq<Answer>,
    at: nat,
)
    ensures
        server::summary_reply(s, a, b, filter, said, answers, at) matches StepView::Ask(ask)
            ==> runs_in(ask, s.repo_path@),
{
    lemma_section_runs_in(server::diff_request(s, a, b, filter), answers, at);
}

proof fn lemma_gia_diff_runs_in(
    repo: Seq<char>,
    a: Seq<char>,
    b: Seq<char>,
    told: Seq<char>,
    with_log: bool,
    audio: bool,
    paths: Seq<Seq<char>>,
    answers: Seq<Answer>,
    at: nat,
)
    ensures
        summary::gia_diff_step(repo, a, b, told, with_log, audio, paths, answers, at) matches StepView::Ask(
            ask,
        ) ==> runs_in(ask, repo),
{
    lemma_runs_in(repo, a, b, paths);
    lemma_runs_in(repo, b, a, paths);
}

proof fn lemma_diff_runs_in(
    s: Server,
    pairs: Seq<(Seq<char>, Seq<char>)>,
    answers: Seq<Answer>,
)
    ensures
        server::diff_step(s, pairs, answers) matches StepView::Ask(ask) ==> runs_in(
            ask,
            s.repo_path@,
        ),
{
    let filter = server::filter_param(pairs);
    let paths = query::filter_pathspecs(filter);
    match server::range_param(pairs, " parameter"@) {
        Ok(ends) => {
            lemma_runs_in(s.repo_path@, ends.0, ends.1, paths);
            lemma_runs_in(s.repo_path@, ends.0, ends.1, seq![]);
            if answers.len() > 1 {
                let told = prompt::effective_prompt(
                    server::diff_prompt(s, answers[1]),
                    s.lang@,
                    s.gia_audio,
                );
                let with_log = !server::switched_on(pairs, "nolog"@);
                lemma_gia_diff_runs_in(
                    s.repo_path@,
                    ends.0,
                    ends.1,
                    told,
                    with_log,
                    s.gia_audio,
                    paths,
                    answers,
                    2,
                );
                match summary::gia_diff_step(
                    s.repo_path@,
                    ends.0,
                    ends.1,
                    told,
                    with_log,
                    s.gia_audio,
                    paths,
                    answers,
                    2,
                ) {
                    StepView::Done(said, n) => {
                        lemma_summary_reply_runs_in(
                            s,
                            ends.0,
                            ends.1,
                            filter,
                            said,
                            answers,
                            n,
                        );
                    },
                    _ => {},
                }
            }
        },
        Err(e) => {},
    }
}

proof fn lemma_log_summary_runs_in(
    s: Server,
    pairs: Seq<(Seq<char>, Seq<char>)>,
    answers: Seq<Answer>,
)
    ensures
        server::log_summary_step(s, pairs, answers) matches StepView::Ask(ask) ==> runs_in(
            ask,
            s.repo_path@,
        ),
{
    match server::range_param(pairs, ""@) {
        Ok(ends) => {
            lemma_runs_in(s.repo_path@, ends.0, ends.1, seq![]);
            let told = prompt::effective_prompt(server::log_prompt(s), s.lang@, s.gia_audio);
            match summary::gia_log_step(
                s.repo_path@,
                ends.0,
                ends.1,
                told,
                s.gia_audio,
                answers,
                1,
            ) {
                StepView::Done(said, n) => {
                    lemma_summary_reply_runs_in(
                        s,
                        ends.0,
                        ends.1,
                        server::filter_param(pairs),
                        said,
                        answers,
                        n,
                    );
                },
                _ => {},
            }
        },
        Err(e) => {},
    }
}

proof fn lemma_pages_run_in(
    s: Server,
    pairs: Seq<(Seq<char>, Seq<char>)>,
    answers: Seq<Answer>,
)
    ensures
        server::diff2html_step(s, pairs, answers) matches StepView::Ask(ask) ==> runs_in(
            ask,
            s.repo_path@,
        ),
        server::single_step(s, pairs, answers) matches StepView::Ask(ask) ==> runs_in(
            ask,
            s.repo_path@,
        ),
{
    let filter = server::filter_param(pairs);
    let paths = query::filter_pathspecs(filter);
    match server::range_param(pairs, ""@) {
        Ok(ends) => {
            lemma_runs_in(s.repo_path@, ends.0, ends.1, paths);
            lemma_section_runs_in(
                server::diff_request(s, ends.0, ends.1, filter),
                answers,
                1,
            );
        },
        Err(e) => {},
    }
    match server::sha_param(pairs, "commit"@) {
        Some(commit) => {
            if answers.len() > 0 {
                let parent = range::first_parent(answers[0]);
                lemma_runs_in(s.repo_path@, parent, commit, paths);
                match range::child_step(s.repo_path@, commit, answers, 2) {
                    StepView::Done(newer, n) => {
                        lemma_section_runs_in(
                            server::diff_request(s, parent, commit, filter),
                            answers,
                            n,
                        );
                    },
                    _ => {},
                }
            }
        },
        None => {},
    }
}

proof fn lemma_others_run_in(
    s: Server,
    pairs: Seq<(Seq<char>, Seq<char>)>,
    answers: Seq<Answer>,
)
    ensures
        server::checkout_step(s, pairs, answers) matches StepView::Ask(ask) ==> runs_in(
            ask,
            s.repo_path@,
        ),
        server::delete_branch_step(s, pairs, answers) matches StepView::Ask(ask) ==> runs_in(
            ask,
            s.repo_path@,
        ),
        server::delete_tag_step(s, pairs, answers) matches StepView::Ask(ask) ==> runs_in(
            ask,
            s.repo_path@,
        ),
        server::git_log_step(s, pairs, answers) matches StepView::Ask(ask) ==> runs_in(
            ask,
            s.repo_path@,
        ),
{
    match server::range_param(pairs, ""@) {
        Ok(ends) => {
            lemma_runs_in(s.repo_path@, ends.0, ends.1, seq![]);
        },
        Err(e) => {},
    }
}

/// Whatever is asked for, `git` is run in the repository of the server.
pub proof fn law_git_runs_in_the_repository(
    s: Server,
    line: Seq<char>,
    answers: Seq<Answer>,
    ask: AskView,
)
    requires
        server::request_step(s, line, answers) == StepView::<server::ReplyView>::Ask(ask),
    ensures
        runs_in(ask, s.repo_path@),
{
    match server::request_target(line) {
        Some(t) => {
            let pairs = query::query_pairs(search::split(t.1, "&"@));
            lemma_others_run_in(s, pairs, answers);
            lemma_pages_run_in(s, pairs, answers);
            lemma_diff_runs_in(s, pairs, answers);
            lemma_log_summary_runs_in(s, pairs, answers);
        },
        None => {},
    }
}

// ---------------------------------------------------------------------------------------------
// Without differences
// ---------------------------------------------------------------------------------------------

/// The question whether two commits differ, in the given paths where there are any.
pub open spec fn difference_question(
    repo: Seq<char>,
    a: Seq<char>,
    b: Seq<char>,
    paths: Seq<Seq<char>>,
) -> AskView {
    AskView::GitStatus(
        seq!["-C"@, repo, "diff"@, "--quiet"@, a, b] + (if paths.len() == 0 {
            seq![]
        } else {
            seq!["--"@] + paths
        }),
    )
}

/// The reply that is the given page.
pub open spec fn is_page(step: StepView<server::ReplyView>, body: Seq<char>, n: nat) -> bool {
    step matches StepView::Done(server::ReplyView::Sent { response, regenerate }, m) && m == n
        && response.status == 200 && response.content_type == "text/html; charset=utf-8"@
        && response.body == body && !regenerate
}

/// A request about two commits first asks whether they differ, in the paths that it is limited to
/// where it shows changes. If they do not, the page that says so is the reply, in the colors of
/// the server, and nothing else is asked for.
pub proof fn law_equal_commits_have_no_diff(
    s: Server,
    line: Seq<char>,
    answers: Seq<Answer>,
    a: Seq<char>,
    b: Seq<char>,
)
    requires
        path_of(line) == "/diff"@ || path_of(line) == "/log-summary"@ || path_of(line) == "/log"@
            || path_of(line) == "/diff2html"@,
        value_of(line, "from"@) == Some(a),
        value_of(line, "to"@) == Some(b),
        charset::valid_sha(a),
        charset::valid_sha(b),
    ensures
        server::request_step(s, line, seq![]) == StepView::<server::ReplyView>::Ask(
            difference_question(
                s.repo_path@,
                a,
                b,
                if path_of(line) == "/diff2html"@ || (path_of(line) == "/diff"@ && value_of(
                    line,
                    "ai"@,
                ) == Some("1"@)) {
                    limited_to(line)
                } else {
                    seq![]
                },
            ),
        ),
        answers.len() > 0 && answers[0].error is None && answers[0].success ==> is_page(
            server::request_step(s, line, answers),
            html_page::no_diff_page(a, b, s.theme),
            1,
        ),
{
    lemma_paths();
    match server::request_target(line) {
        Some(t) => {
            let pairs = query::query_pairs(search::split(t.1, "&"@));
            let none = Seq::<Answer>::empty();
            lemma_routes(s, t.0, pairs, none);
            lemma_routes(s, t.0, pairs, answers);
            lemma_log_route(s, t.0, pairs, none);
            lemma_log_route(s, t.0, pairs, answers);
            lemma_with_paths(
                seq!["-C"@, s.repo_path@, "diff"@, "--quiet"@, a, b],
                limited_to(line),
            );
            lemma_with_paths(seq!["-C"@, s.repo_path@, "diff"@, "--quiet"@, a, b], seq![]);
            assert(server::range_param(pairs, ""@) == Ok::<(Seq<char>, Seq<char>), Seq<char>>(
                (a, b),
            ));
            assert(server::range_param(pairs, " parameter"@) == Ok::<
                (Seq<char>, Seq<char>),
                Seq<char>,
            >((a, b)));
        },
        None => {
            reveal_strlit("/diff");
            reveal_strlit("/log-summary");
            reveal_strlit("/log");
            reveal_strlit("/diff2html");
            assert("/diff"@.len() == 5);
            assert("/log-summary"@.len() == 12);
            assert("/log"@.len() == 4);
            assert("/diff2html"@.len() == 10);
        },
    }
}

proof fn lemma_log_route(
    s: Server,
    path: Seq<char>,
    pairs: Seq<(Seq<char>, Seq<char>)>,
    answers: Seq<Answer>,
)
    ensures
        path == "/log"@ ==> server::route(s, path, pairs, answers) == server::git_log_step(
            s,
            pairs,
            answers,
        ),
{
    reveal_strlit("/diff");
    reveal_strlit("/log-summary");
    reveal_strlit("/log");
    reveal_strlit("/heartbeat");
    reveal_strlit("/view");
    reveal_strlit("/version");
    reveal_strlit("/checkout");
    reveal_strlit("/delete-branch");
    reveal_strlit("/delete-tag");
    assert("/diff"@.len() == 5);
    assert("/log-summary"@.len() == 12);
    assert("/log"@.len() == 4);
    assert("/heartbeat"@.len() == 10);
    assert("/view"@.len() == 5);
    assert("/version"@.len() == 8);
    assert("/checkout"@.len() == 9);
    assert("/delete-branch"@.len() == 14);
    assert("/delete-tag"@.len() == 11);
}

// ---------------------------------------------------------------------------------------------
// Files, labels and neighbours
// ---------------------------------------------------------------------------------------------

/// The AI tool is handed every file that was written for it, and each of these is removed again
/// before there is a result, once the tool has been started. The heading names both commits, the
/// first one first, each as `git` answered when asked for its names.
pub proof fn law_files_for_the_tool_are_removed(
    repo: Seq<char>,
    a: Seq<char>,
    b: Seq<char>,
    told: Seq<char>,
    audio: bool,
    meta: Option<Seq<char>>,
    input: nat,
    answers: Seq<Answer>,
    at: nat,
)
    requires
        at + 4 <= answers.len(),
        answers[(at + 3) as int].error is None || answers[(at + 3) as int].started,
        summary::gia_step(repo, a, b, told, audio, meta, input, answers, at) is Done,
    ensures
        ({
            let asked = |k: int|
                summary::gia_step(repo, a, b, told, audio, meta, input, answers.take(k), at);
            let header = answers[(at + 2) as int];
            let kept = header.error is None && header.success;
            &&& asked(at as int) == StepView::<Seq<char>>::Ask(
                AskView::GitOutput(
                    seq!["-C"@, repo, "log"@, "-1"@, "--pretty=format:%D"@, a],
                ),
            )
            &&& asked((at + 1) as int) == StepView::<Seq<char>>::Ask(
                AskView::GitOutput(
                    seq!["-C"@, repo, "log"@, "-1"@, "--pretty=format:%D"@, b],
                ),
            )
            &&& asked((at + 2) as int) == StepView::<Seq<char>>::Ask(
                AskView::WriteHeader(
                    "Use the following as the heading/title of your response: \""@
                        + range::ref_label(a, answers[at as int]) + " → "@ + range::ref_label(
                        b,
                        answers[(at + 1) as int],
                    ) + "\""@,
                ),
            )
            &&& asked((at + 3) as int) matches StepView::Ask(AskView::Gia { args, input: i }) && i == input
                && (kept ==> args.contains(header.stdout@)) && (meta matches Some(m)
                ==> args.contains(m))
            &&& kept ==> at + 4 < answers.len() && asked((at + 4) as int) == StepView::<Seq<char>>::Ask(
                AskView::Remove(header.stdout@),
            )
            &&& meta matches Some(m) ==> {
                let k = if kept {
                    at + 5
                } else {
                    at + 4
                };
                k < answers.len() && asked(k as int) == StepView::<Seq<char>>::Ask(
                    AskView::Remove(m),
                )
            }
        }),
{
    let header = summary::written(answers[(at + 2) as int]);
    let args = summary::gia_args(told, audio, header, meta);
    let tail = summary::file_args(header) + summary::file_args(meta);
    let head = seq!["--markdown"@, told] + summary::audio_args(audio);
    assert(args =~= head + tail);
    match header {
        Some(h) => {
            assert(args[(head.len() + 1) as int] == h);
        },
        None => {},
    }
    match meta {
        Some(m) => {
            assert(args[args.len() - 1] == m);
        },
        None => {},
    }
    let files = summary::leftovers(header, meta);
    assert(answers.len() >= at + 4 + files.len());
    assert(forall|k: int, i: int|
        0 <= i < k <= answers.len() ==> #[trigger] answers.take(k)[i] == answers[i]);
}

/// What the AI tool said is the result: what it printed, or what it complained of where it printed
/// nothing, without the white space round it.
pub proof fn law_result_is_what_the_tool_said(answer: Answer)
    requires
        answer.error is None,
    ensures
        ({
            let said = if lines::trim(answer.stdout@).len() > 0 {
                lines::trim(answer.stdout@)
            } else {
                lines::trim(answer.stderr@)
            };
            let cancelled = search::contains_text(said, "Recording cancelled by user"@);
            &&& cancelled ==> summary::gia_result(answer) == ""@
            &&& !cancelled ==> summary::gia_result(answer) == said
        }),
{
    reveal_strlit("");
    assert(""@ =~= Seq::<char>::empty());
}

/// Whether a line names the given commit among the parents, behind the commit that it is about.
pub open spec fn names_parent(line: Seq<char>, commit: Seq<char>) -> bool {
    exists|j: int|
        1 <= j < lines::words(line).len() && (commit.is_prefix_of(#[trigger] lines::words(line)[j])
            || lines::words(line)[j].is_prefix_of(commit))
}

/// A child of a commit is what the first line is about that names the commit among the parents. The
/// lines are searched up to the first one without words.
pub proof fn law_child_is_the_first_to_name_its_parent(ls: Seq<Seq<char>>, commit: Seq<char>)
    ensures
        match range::child_in(ls, commit) {
            Some(child) => exists|i: int|
                {
                    &&& 0 <= i < ls.len()
                    &&& names_parent(#[trigger] ls[i], commit)
                    &&& lines::words(ls[i])[0] == child
                    &&& forall|k: int|
                        0 <= k < i ==> !names_parent(#[trigger] ls[k], commit) && lines::words(
                            ls[k],
                        ).len() > 0
                },
            None => forall|i: int|
                0 <= i < ls.len() && names_parent(#[trigger] ls[i], commit) ==> exists|k: int|
                    0 <= k < i && lines::words(#[trigger] ls[k]).len() == 0,
        },
    decreases ls.len(),
{
    if ls.len() > 0 {
        let rest = ls.drop_first();
        assert(forall|i: int| 0 <= i < rest.len() ==> rest[i] == ls[i + 1]);
        let ws = lines::words(ls[0]);
        assert forall|x: Seq<char>| #[trigger] range::same_commit(x, commit)
            == (commit.is_prefix_of(x) || x.is_prefix_of(commit)) by {
            lemma_prefix(x, commit);
            lemma_prefix(commit, x);
        }
        assert(names_parent(ls[0], commit) == exists|j: int|
            1 <= j < ws.len() && range::same_commit(#[trigger] ws[j], commit)) by {
            if names_parent(ls[0], commit) {
                let j = choose|j: int|
                    1 <= j < ws.len() && (commit.is_prefix_of(#[trigger] ws[j])
                        || ws[j].is_prefix_of(commit));
                assert(range::same_commit(ws[j], commit));
            }
        }
        law_child_is_the_first_to_name_its_parent(rest, commit);
        if ws.len() > 0 && !names_parent(ls[0], commit) {
            match range::child_in(rest, commit) {
                Some(child) => {
                    let i = choose|i: int|
                        {
                            &&& 0 <= i < rest.len()
                            &&& names_parent(#[trigger] rest[i], commit)
                            &&& lines::words(rest[i])[0] == child
                            &&& forall|k: int|
                                0 <= k < i ==> !names_parent(#[trigger] rest[k], commit)
                                    && lines::words(rest[k]).len() > 0
                        };
                    assert(ls[i + 1] == rest[i]);
                    assert forall|k: int| 0 <= k < i + 1 implies !names_parent(
                        #[trigger] ls[k],
                        commit,
                    ) && lines::words(ls[k]).len() > 0 by {
                        if k > 0 {
                            assert(rest[k - 1] == ls[k]);
                        }
                    }
                    assert(names_parent(ls[i + 1], commit));
                },
                None => {
                    assert forall|i: int|
                        0 <= i < ls.len() && names_parent(
                            #[trigger] ls[i],
                            commit,
                        ) implies exists|k: int|
                        0 <= k < i && lines::words(#[trigger] ls[k]).len() == 0 by {
                        assert(i > 0);
                        assert(rest[i - 1] == ls[i]);
                        let k = choose|k: int|
                            0 <= k < i - 1 && lines::words(#[trigger] rest[k]).len() == 0;
                        assert(ls[k + 1] == rest[k]);
                    }
                },
            }
        } else if ws.len() == 0 {
            assert forall|i: int|
                0 <= i < ls.len() && names_parent(#[trigger] ls[i], commit) implies exists|k: int|
                0 <= k < i && lines::words(#[trigger] ls[k]).len() == 0 by {
                assert(lines::words(ls[0]).len() == 0);
                assert(i > 0);
            }
        } else {
            assert(range::child_in(ls, commit) == Some(ws[0]));
            assert(names_parent(ls[0], commit));
        }
    }
}

proof fn lemma_prefix(a: Seq<char>, b: Seq<char>)
    ensures
        text::starts_with(a, b) == b.is_prefix_of(a),
{
    if b.len() <= a.len() {
        assert(a.take(b.len() as int) =~= a.subrange(0, b.len() as int));
    }
}

/// A tag is deleted here first, and from each remote that `git` lists, one after the other.
pub proof fn law_tag_is_deleted_from_every_remote(
    s: Server,
    line: Seq<char>,
    answers: Seq<Answer>,
    name: Seq<char>,
    i: int,
)
    requires
        path_of(line) == "/delete-tag"@,
        value_of(line, "name"@) == Some(name),
        charset::valid_ref_name(name),
        answers.len() >= 2,
        answers[1].error is None,
        0 <= i < lines::lines(answers[1].stdout@).len(),
        i + 2 <= answers.len(),
    ensures
        server::request_step(s, line, seq![]) == StepView::<server::ReplyView>::Ask(
            AskView::GitStatus(seq!["-C"@, s.repo_path@, "tag"@, "-d"@, name]),
        ),
        server::request_step(s, line, answers.take(1)) == StepView::<server::ReplyView>::Ask(
            AskView::GitOutput(seq!["-C"@, s.repo_path@, "remote"@]),
        ),
        server::request_step(s, line, answers.take(i + 2)) == StepView::<server::ReplyView>::Ask(
            AskView::GitStatus(
                seq![
                    "-C"@,
                    s.repo_path@,
                    "push"@,
                    lines::lines(answers[1].stdout@)[i],
                    "--delete"@,
                    name,
                ],
            ),
        ),
{
    reveal_strlit("/heartbeat");
    reveal_strlit("/view");
    reveal_strlit("/version");
    reveal_strlit("/checkout");
    reveal_strlit("/delete-branch");
    reveal_strlit("/delete-tag");
    assert("/heartbeat"@.len() == 10);
    assert("/view"@.len() == 5);
    assert("/version"@.len() == 8);
    assert("/checkout"@.len() == 9);
    assert("/delete-branch"@.len() == 14);
    assert("/delete-tag"@.len() == 11);
    assert(answers.take(i + 2)[1] == answers[1]);
    match server::request_target(line) {
        Some(t) => {
            let pairs = query::query_pairs(search::split(t.1, "&"@));
            assert(server::name_param(pairs, "name"@) == Some(name));
        },
        None => {},
    }
}

// ---------------------------------------------------------------------------------------------
// What is shown
// ---------------------------------------------------------------------------------------------

/// What `git` printed, where it could be run.
pub open spec fn printed_by(answer: Answer) -> Seq<char> {
    if answer.error is None {
        answer.stdout@
    } else {
        ""@
    }
}

/// The cards of what `git` printed for a log and, next, for the names of the files in it.
pub open spec fn shown_cards(answers: Seq<Answer>, n: nat) -> (Seq<char>, nat) {
    cards::log_cards(
        cards::counts_in(lines::lines(printed_by(answers[n - 1]))),
        printed_by(answers[n - 2]),
    )
}

/// The page of two commits shows the changes that `git` printed when it was asked for them, unless
/// too many files changed, and the cards of the commits in the log that `git` printed, each with
/// the number of its files.
pub proof fn law_page_shows_what_git_printed(
    q: DiffView,
    answers: Seq<Answer>,
    at: nat,
    html: Seq<char>,
    n: nat,
)
    requires
        diff_page::page_step(q, answers, at) == StepView::<Result<Seq<char>, Seq<char>>>::Done(
            Ok(html),
            n,
        ),
    ensures
        at + 4 <= n <= answers.len(),
        diff_page::page_step(q, answers.take(n - 2), at) matches StepView::Ask(ask)
            && asks_for_log(ask),
        diff_page::page_step(q, answers.take(n - 1), at) matches StepView::Ask(ask)
            && asks_for_log(ask),
        ({
            ||| {
                &&& diff_page::page_step(q, answers.take(n - 4), at) matches StepView::Ask(ask)
                &&& asks_for_changes(ask)
                &&& answers[n - 4].error is None
                &&& html == diff_page::diff_page(
                    q,
                    None,
                    answers[n - 4].stdout@,
                    shown_cards(answers, n),
                )
            }
            ||| {
                &&& q.max_files > 0
                &&& lines::lines(printed_by(answers[(at + 1) as int])).len() > q.max_files
                &&& html == diff_page::diff_page(
                    q,
                    Some(lines::lines(printed_by(answers[(at + 1) as int])).len()),
                    seq![],
                    shown_cards(answers, n),
                )
            }
        }),
{
    lemma_words();
    reveal_strlit("");
    assert(""@ =~= Seq::<char>::empty());
    match diff_page::head_step(q, answers, at) {
        StepView::Done(head, m) => {
            let ends = range::ordered(q.sha1, q.sha2, answers[at as int]);
            lemma_with_paths(seq!["-C"@, q.repo, "diff"@, "-w"@, ends.0, ends.1], q.paths);
            assert(asks_for_changes(
                AskView::GitOutput(range::diff_args(q.repo, ends.0, ends.1, q.paths)),
            ));
            lemma_head_before(q, answers, at, m);
            assert(n <= answers.len());
            lemma_head_before(q, answers, at, (n - 2) as nat);
            lemma_head_before(q, answers, at, (n - 1) as nat);
            assert(forall|k: int, i: int|
                0 <= i < k <= answers.len() ==> #[trigger] answers.take(k)[i] == answers[i]);
        },
        _ => {},
    }
}

/// The same holds of the part of a page that shows a diff, which there is only where not too many
/// files changed.
pub proof fn law_section_shows_what_git_printed(
    q: DiffView,
    answers: Seq<Answer>,
    at: nat,
    html: Seq<char>,
    n: nat,
)
    requires
        diff_page::section_step(q, answers, at) == StepView::<Result<Seq<char>, Seq<char>>>::Done(
            Ok(html),
            n,
        ),
    ensures
        at + 5 <= n <= answers.len(),
        diff_page::section_step(q, answers.take(n - 4), at) matches StepView::Ask(ask)
            && asks_for_changes(ask),
        diff_page::section_step(q, answers.take(n - 2), at) matches StepView::Ask(ask)
            && asks_for_log(ask),
        diff_page::section_step(q, answers.take(n - 1), at) matches StepView::Ask(ask)
            && asks_for_log(ask),
        answers[n - 4].error is None,
        html == diff_page::section_html(q, answers[n - 4].stdout@, shown_cards(answers, n)),
        q.max_files > 0 ==> lines::lines(printed_by(answers[(at + 1) as int])).len()
            <= q.max_files,
{
    lemma_words();
    reveal_strlit("");
    assert(""@ =~= Seq::<char>::empty());
    match diff_page::head_step(q, answers, at) {
        StepView::Done(head, m) => {
            let ends = range::ordered(q.sha1, q.sha2, answers[at as int]);
            lemma_with_paths(seq!["-C"@, q.repo, "diff"@, "-w"@, ends.0, ends.1], q.paths);
            assert(asks_for_changes(
                AskView::GitOutput(range::diff_args(q.repo, ends.0, ends.1, q.paths)),
            ));
            lemma_head_before(q, answers, at, m);
            assert(n <= answers.len());
            lemma_head_before(q, answers, at, (n - 2) as nat);
            lemma_head_before(q, answers, at, (n - 1) as nat);
            assert(forall|k: int, i: int|
                0 <= i < k <= answers.len() ==> #[trigger] answers.take(k)[i] == answers[i]);
        },
        _ => {},
    }
}

/// A request for the page of a range is answered with that page: of the two commits in the order in
/// which they are given, with the filter of the request and the settings of the server.
pub proof fn law_range_is_answered_with_its_page(
    s: Server,
    line: Seq<char>,
    answers: Seq<Answer>,
    a: Seq<char>,
    b: Seq<char>,
    html: Seq<char>,
    n: nat,
)
    requires
        path_of(line) == "/diff2html"@,
        value_of(line, "from"@) == Some(a),
        value_of(line, "to"@) == Some(b),
        charset::valid_sha(a),
        charset::valid_sha(b),
        answers.len() > 0,
        answers[0].error is Some || !answers[0].success,
        diff_page::page_step(
            DiffView {
                repo: s.repo_path@,
                sha1: a,
                sha2: b,
                theme: s.theme,
                paths: limited_to(line),
                filter: match value_of(line, "filter"@) {
                    Some(v) => v,
                    None => seq![],
                },
                max_files: s.max_diff_files,
                gitlab_url: match s.gitlab_url {
                    Some(url) => Some(url@),
                    None => None,
                },
                js: s.diff_js@,
                css: s.diff_css@,
            },
            answers,
            1,
        ) == StepView::<Result<Seq<char>, Seq<char>>>::Done(Ok(html), n),
    ensures
        is_page(server::request_step(s, line, answers), html, n),
{
    match server::request_target(line) {
        Some(t) => {
            let pairs = query::query_pairs(search::split(t.1, "&"@));
            lemma_routes(s, t.0, pairs, answers);
            assert(server::range_param(pairs, ""@) == Ok::<(Seq<char>, Seq<char>), Seq<char>>(
                (a, b),
            ));
        },
        None => {
            reveal_strlit("/diff2html");
            assert("/diff2html"@.len() == 10);
        },
    }
}

/// What a tool said of two commits is shown as Markdown, in the colors of the server, with the part
/// that shows the diff behind it where there is one. Where it said nothing, the page is closed.
pub proof fn law_summary_is_shown(
    s: Server,
    a: Seq<char>,
    b: Seq<char>,
    filter: Seq<char>,
    said: Seq<char>,
    answers: Seq<Answer>,
    at: nat,
)
    ensures
        said.len() == 0 ==> is_page(
            server::summary_reply(s, a, b, filter, said, answers, at),
            "<script>window.close();</script>"@,
            at,
        ),
        said.len() > 0 ==> (server::summary_reply(s, a, b, filter, said, answers, at) matches StepView::Done(
            r,
            n,
        ) ==> exists|part: Seq<char>|
            {
                &&& is_page(
                    StepView::Done(r, n),
                    #[trigger] html_page::summary_page(
                        text::first_chars(a, 7),
                        text::first_chars(b, 7),
                        markdown::markdown_html(said),
                        s.theme,
                        part,
                    ),
                    n,
                )
                &&& match diff_page::section_step(
                    server::diff_request(s, a, b, filter),
                    answers,
                    at,
                ) {
                    StepView::Done(Ok(html), m) => part == html && m == n,
                    StepView::Done(Err(e), m) => part == ""@ && m == n,
                    StepView::Ask(ask) => false,
                }
            }),
{
    if said.len() > 0 {
        match diff_page::section_step(server::diff_request(s, a, b, filter), answers, at) {
            StepView::Done(section, n) => {
                let part = match section {
                    Ok(html) => html,
                    Err(e) => ""@,
                };
                let page = html_page::summary_page(
                    text::first_chars(a, 7),
                    text::first_chars(b, 7),
                    markdown::markdown_html(said),
                    s.theme,
                    part,
                );
                assert(is_page(
                    server::summary_reply(s, a, b, filter, said, answers, at),
                    page,
                    n,
                ));
            },
            _ => {},
        }
    }
}

/// The page of a single commit compares it with its first parent, and leads on to that parent, if
/// it has one, and to the child that was found.
pub proof fn law_single_commit_leads_to_its_neighbours(
    s: Server,
    pairs: Seq<(Seq<char>, Seq<char>)>,
    commit: Seq<char>,
    answers: Seq<Answer>,
    newer: Option<Seq<char>>,
    n: nat,
    html: Seq<char>,
    m: nat,
)
    requires
        query::value(pairs, "commit"@) == Some(commit),
        charset::valid_sha(commit),
        answers.len() > 1,
        answers[1].error is Some || !answers[1].success,
        range::child_step(s.repo_path@, commit, answers, 2) == StepView::Done(newer, n),
        diff_page::page_step(
            server::diff_request(
                s,
                range::first_parent(answers[0]),
                commit,
                server::filter_param(pairs),
            ),
            answers,
            n,
        ) == StepView::<Result<Seq<char>, Seq<char>>>::Done(Ok(html), m),
    ensures
        server::single_step(s, pairs, seq![]) == StepView::<server::ReplyView>::Ask(
            AskView::GitOutput(seq!["-C"@, s.repo_path@, "log"@, "-1"@, "--pretty=%P"@, commit]),
        ),
        range::first_parent(answers[0]) == range::EMPTY_TREE@ ==> is_page(
            server::single_step(s, pairs, answers),
            html_page::with_navigation(html, None, newer),
            m,
        ),
        range::first_parent(answers[0]) != range::EMPTY_TREE@ ==> is_page(
            server::single_step(s, pairs, answers),
            html_page::with_navigation(html, Some(range::first_parent(answers[0])), newer),
            m,
        ),
{
    assert(server::sha_param(pairs, "commit"@) == Some(commit));
}

/// The first parent of a commit is the first word that `git` printed, and the empty tree stands in
/// where it printed none.
pub proof fn law_first_parent_comes_first(answer: Answer)
    ensures
        ({
            let ws = lines::words(lines::trim(printed_by(answer)));
            &&& ws.len() == 0 ==> range::first_parent(answer) == range::EMPTY_TREE@
            &&& ws.len() > 0 ==> range::first_parent(answer).is_prefix_of(ws[0])
            &&& ws.len() > 0 && ws[0].len() <= 40 ==> range::first_parent(answer) == ws[0]
        }),
{
    reveal_strlit("");
    assert(""@ =~= Seq::<char>::empty());
    let ws = lines::words(lines::trim(printed_by(answer)));
    if ws.len() > 0 {
        let first = range::first_parent(answer);
        assert(first =~= ws[0].subrange(0, first.len() as int));
    }
}

} // verus!
