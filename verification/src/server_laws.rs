//! What holds of every request: refusals come at once, only changes make the graph anew, every
//! request comes to an end, and what has been decided stays decided.

use vstd::prelude::*;

use crate::diff_page;
use crate::diff_page::DiffView;
use crate::job;
use crate::job::{Answer, StepView};
use crate::lines;
use crate::prompt;
use crate::query;
use crate::range;
use crate::search;
use crate::server;
use crate::server::{ReplyView, Server};
use crate::summary;
use crate::theme::Theme;

verus! {

/// A request with wrong parameters is refused before anything is run for it, and whatever has been
/// answered.
pub proof fn law_refusals_come_first(
    s: Server,
    line: Seq<char>,
    answers: Seq<Answer>,
)
    requires
        server::request_step(s, line, answers) matches StepView::Done(
            ReplyView::Sent { response, regenerate },
            n,
        ) && response.status == 400,
    ensures
        server::request_step(s, line, seq![]) == server::request_step(s, line, answers),
        server::request_step(s, line, answers) matches StepView::Done(
            ReplyView::Sent { response, regenerate },
            n,
        ) && !regenerate && n == 0,
{
}

/// Only requests that change refs make the graph anew.
pub proof fn law_only_changes_regenerate(s: Server, line: Seq<char>, answers: Seq<Answer>)
    requires
        server::request_step(s, line, answers) matches StepView::Done(
            ReplyView::Sent { response, regenerate },
            n,
        ) && regenerate,
    ensures
        server::request_target(line) matches Some(t) && (t.0 == "/checkout"@ || t.0
            == "/delete-branch"@ || t.0 == "/delete-tag"@),
{
}

/// A request line that is not a `GET` is not answered, and nothing is run for it.
pub proof fn law_other_methods_are_ignored(s: Server, line: Seq<char>, answers: Seq<Answer>)
    requires
        server::request_target(line) is None,
    ensures
        server::request_step(s, line, answers) == StepView::<ReplyView>::Done(
            ReplyView::Closed,
            0,
        ),
{
}

// ---------------------------------------------------------------------------------------------
// What has been decided stays decided
// ---------------------------------------------------------------------------------------------

proof fn lemma_base_stable(
    repo: Seq<char>,
    a: Seq<char>,
    b: Seq<char>,
    answers: Seq<Answer>,
    more: Seq<Answer>,
    at: nat,
)
    ensures
        range::base_step(repo, a, b, answers, at) matches StepView::Done(r, n) ==> n
            <= answers.len() && n <= at + 2 && range::base_step(repo, a, b, answers + more, at)
            == range::base_step(repo, a, b, answers, at),
        answers.len() >= at + 2 ==> range::base_step(repo, a, b, answers, at) is Done,
{
}

proof fn lemma_cards_stable(
    repo: Seq<char>,
    a: Seq<char>,
    b: Seq<char>,
    older: Seq<char>,
    answers: Seq<Answer>,
    more: Seq<Answer>,
    at: nat,
)
    ensures
        range::cards_step(repo, a, b, older, answers, at) matches StepView::Done(r, n) ==> n
            <= answers.len() && n <= at + 3 && range::cards_step(
            repo,
            a,
            b,
            older,
            answers + more,
            at,
        ) == range::cards_step(repo, a, b, older, answers, at),
        answers.len() >= at + 3 ==> range::cards_step(repo, a, b, older, answers, at) is Done,
{
}

proof fn lemma_child_stable(
    repo: Seq<char>,
    commit: Seq<char>,
    answers: Seq<Answer>,
    more: Seq<Answer>,
    at: nat,
)
    ensures
        range::child_step(repo, commit, answers, at) matches StepView::Done(r, n) ==> n
            <= answers.len() && n <= at + 2 && range::child_step(repo, commit, answers + more, at)
            == range::child_step(repo, commit, answers, at),
        answers.len() >= at + 2 ==> range::child_step(repo, commit, answers, at) is Done,
{
}

proof fn lemma_gia_stable(
    repo: Seq<char>,
    a: Seq<char>,
    b: Seq<char>,
    prompt: Seq<char>,
    audio: bool,
    meta: Option<Seq<char>>,
    input: nat,
    answers: Seq<Answer>,
    more: Seq<Answer>,
    at: nat,
)
    ensures
        summary::gia_step(repo, a, b, prompt, audio, meta, input, answers, at) matches StepView::Done(
            r,
            n,
        ) ==> n <= answers.len() && n <= at + 6 && summary::gia_step(
            repo,
            a,
            b,
            prompt,
            audio,
            meta,
            input,
            answers + more,
            at,
        ) == summary::gia_step(repo, a, b, prompt, audio, meta, input, answers, at),
        answers.len() >= at + 6 ==> summary::gia_step(
            repo,
            a,
            b,
            prompt,
            audio,
            meta,
            input,
            answers,
            at,
        ) is Done,
{
}

proof fn lemma_gia_with_log_stable(
    repo: Seq<char>,
    a: Seq<char>,
    b: Seq<char>,
    base: Seq<char>,
    prompt: Seq<char>,
    audio: bool,
    input: nat,
    answers: Seq<Answer>,
    more: Seq<Answer>,
    at: nat,
)
    ensures
        summary::gia_with_log_step(repo, a, b, base, prompt, audio, input, answers, at) matches StepView::Done(
            r,
            n,
        ) ==> n <= answers.len() && n <= at + 8 && summary::gia_with_log_step(
            repo,
            a,
            b,
            base,
            prompt,
            audio,
            input,
            answers + more,
            at,
        ) == summary::gia_with_log_step(repo, a, b, base, prompt, audio, input, answers, at),
        answers.len() >= at + 8 ==> summary::gia_with_log_step(
            repo,
            a,
            b,
            base,
            prompt,
            audio,
            input,
            answers,
            at,
        ) is Done,
{
    lemma_gia_stable(repo, a, b, prompt, audio, None, input, answers, more, at + 1);
    if at + 1 < answers.len() {
        let meta = summary::written(answers[(at + 1) as int]);
        lemma_gia_stable(repo, a, b, prompt, audio, meta, input, answers, more, at + 2);
    }
}

proof fn lemma_gia_diff_stable(
    repo: Seq<char>,
    a: Seq<char>,
    b: Seq<char>,
    prompt: Seq<char>,
    with_log: bool,
    audio: bool,
    paths: Seq<Seq<char>>,
    answers: Seq<Answer>,
    more: Seq<Answer>,
    at: nat,
)
    ensures
        summary::gia_diff_step(repo, a, b, prompt, with_log, audio, paths, answers, at) matches StepView::Done(
            r,
            n,
        ) ==> n <= answers.len() && n <= at + 12 && summary::gia_diff_step(
            repo,
            a,
            b,
            prompt,
            with_log,
            audio,
            paths,
            answers + more,
            at,
        ) == summary::gia_diff_step(repo, a, b, prompt, with_log, audio, paths, answers, at),
        answers.len() >= at + 12 ==> summary::gia_diff_step(
            repo,
            a,
            b,
            prompt,
            with_log,
            audio,
            paths,
            answers,
            at,
        ) is Done,
{
    lemma_base_stable(repo, a, b, answers, more, at);
    match range::base_step(repo, a, b, answers, at) {
        StepView::Done(Ok(base), n) => {
            lemma_gia_stable(repo, a, b, prompt, audio, None, n + 1, answers, more, n + 2);
            lemma_gia_with_log_stable(
                repo,
                a,
                b,
                base,
                prompt,
                audio,
                n + 1,
                answers,
                more,
                n + 2,
            );
        },
        _ => {},
    }
}

proof fn lemma_gia_log_stable(
    repo: Seq<char>,
    a: Seq<char>,
    b: Seq<char>,
    prompt: Seq<char>,
    audio: bool,
    answers: Seq<Answer>,
    more: Seq<Answer>,
    at: nat,
)
    ensures
        summary::gia_log_step(repo, a, b, prompt, audio, answers, at) matches StepView::Done(r, n)
            ==> n <= answers.len() && n <= at + 9 && summary::gia_log_step(
            repo,
            a,
            b,
            prompt,
            audio,
            answers + more,
            at,
        ) == summary::gia_log_step(repo, a, b, prompt, audio, answers, at),
        answers.len() >= at + 9 ==> summary::gia_log_step(
            repo,
            a,
            b,
            prompt,
            audio,
            answers,
            at,
        ) is Done,
{
    lemma_base_stable(repo, a, b, answers, more, at);
    match range::base_step(repo, a, b, answers, at) {
        StepView::Done(Ok(base), n) => {
            lemma_gia_stable(repo, a, b, prompt, audio, None, n, answers, more, n + 1);
        },
        _ => {},
    }
}

proof fn lemma_head_stable(q: DiffView, answers: Seq<Answer>, more: Seq<Answer>, at: nat)
    ensures
        diff_page::head_step(q, answers, at) matches StepView::Done(r, n) ==> n <= answers.len()
            && n <= at + 2 && diff_page::head_step(q, answers + more, at) == diff_page::head_step(
            q,
            answers,
            at,
        ),
        answers.len() >= at + 2 ==> diff_page::head_step(q, answers, at) is Done,
{
}

proof fn lemma_section_stable(q: DiffView, answers: Seq<Answer>, more: Seq<Answer>, at: nat)
    ensures
        diff_page::section_step(q, answers, at) matches StepView::Done(r, n) ==> n
            <= answers.len() && n <= at + 6 && diff_page::section_step(q, answers + more, at)
            == diff_page::section_step(q, answers, at),
        answers.len() >= at + 6 ==> diff_page::section_step(q, answers, at) is Done,
{
    lemma_head_stable(q, answers, more, at);
    match diff_page::head_step(q, answers, at) {
        StepView::Done(head, n) => {
            lemma_cards_stable(q.repo, q.sha1, q.sha2, head.older, answers, more, n + 1);
        },
        _ => {},
    }
}

proof fn lemma_page_stable(q: DiffView, answers: Seq<Answer>, more: Seq<Answer>, at: nat)
    ensures
        diff_page::page_step(q, answers, at) matches StepView::Done(r, n) ==> n <= answers.len()
            && n <= at + 6 && diff_page::page_step(q, answers + more, at) == diff_page::page_step(
            q,
            answers,
            at,
        ),
        answers.len() >= at + 6 ==> diff_page::page_step(q, answers, at) is Done,
{
    lemma_head_stable(q, answers, more, at);
    match diff_page::head_step(q, answers, at) {
        StepView::Done(head, n) => {
            lemma_cards_stable(q.repo, q.sha1, q.sha2, head.older, answers, more, n + 1);
            lemma_cards_stable(q.repo, q.sha1, q.sha2, head.older, answers, more, n);
        },
        _ => {},
    }
}

proof fn lemma_log_stable(
    repo: Seq<char>,
    a: Seq<char>,
    b: Seq<char>,
    theme: Theme,
    answers: Seq<Answer>,
    more: Seq<Answer>,
    at: nat,
)
    ensures
        diff_page::log_step(repo, a, b, theme, answers, at) matches StepView::Done(r, n) ==> n
            <= answers.len() && n <= at + 4 && diff_page::log_step(
            repo,
            a,
            b,
            theme,
            answers + more,
            at,
        ) == diff_page::log_step(repo, a, b, theme, answers, at),
        answers.len() >= at + 4 ==> diff_page::log_step(repo, a, b, theme, answers, at) is Done,
{
    lemma_base_stable(repo, a, b, answers, more, at);
}

proof fn lemma_summary_reply_stable(
    s: Server,
    a: Seq<char>,
    b: Seq<char>,
    filter: Seq<char>,
    said: Seq<char>,
    answers: Seq<Answer>,
    more: Seq<Answer>,
    at: nat,
)
    requires
        at <= answers.len(),
    ensures
        server::summary_reply(s, a, b, filter, said, answers, at) matches StepView::Done(r, n)
            ==> n <= answers.len() && server::summary_reply(
            s,
            a,
            b,
            filter,
            said,
            answers + more,
            at,
        ) == server::summary_reply(s, a, b, filter, said, answers, at),
        answers.len() >= at + 6 ==> server::summary_reply(s, a, b, filter, said, answers, at) is Done,
{
    lemma_section_stable(server::diff_request(s, a, b, filter), answers, more, at);
}

/// How many answers a request needs at most.
pub open spec fn enough(line: Seq<char>, answers: Seq<Answer>) -> bool {
    match server::request_target(line) {
        Some(t) => if t.0 == "/delete-tag"@ {
            answers.len() >= 2 && answers.len() - 2 >= lines::lines(job::printed(answers[1])).len()
        } else {
            answers.len() >= 20
        },
        None => true,
    }
}

proof fn lemma_request(s: Server, line: Seq<char>, answers: Seq<Answer>, more: Seq<Answer>)
    ensures
        server::request_step(s, line, answers) matches StepView::Done(r, n) ==> n <= answers.len()
            && server::request_step(s, line, answers + more) == server::request_step(
            s,
            line,
            answers,
        ),
        enough(line, answers) ==> server::request_step(s, line, answers) is Done,
{
    match server::request_target(line) {
        Some(t) => {
            let pairs = query::query_pairs(search::split(t.1, "&"@));
            lemma_route(s, t.0, pairs, answers, more);
        },
        None => {},
    }
}

proof fn lemma_route(
    s: Server,
    path: Seq<char>,
    pairs: Seq<(Seq<char>, Seq<char>)>,
    answers: Seq<Answer>,
    more: Seq<Answer>,
)
    ensures
        server::route(s, path, pairs, answers) matches StepView::Done(r, n) ==> n
            <= answers.len() && server::route(s, path, pairs, answers + more) == server::route(
            s,
            path,
            pairs,
            answers,
        ),
        (if path == "/delete-tag"@ {
            answers.len() >= 2 && answers.len() - 2 >= lines::lines(job::printed(answers[1])).len()
        } else {
            answers.len() >= 20
        }) ==> server::route(s, path, pairs, answers) is Done,
{
    lemma_diff_stable(s, pairs, answers, more);
    lemma_log_summary_stable(s, pairs, answers, more);
    match server::range_param(pairs, ""@) {
        Ok(ends) => {
            lemma_log_stable(s.repo_path@, ends.0, ends.1, s.theme, answers, more, 1);
            let q = server::diff_request(s, ends.0, ends.1, server::filter_param(pairs));
            lemma_page_stable(q, answers, more, 1);
        },
        Err(_) => {},
    }
    lemma_single_stable(s, pairs, answers, more);
}

proof fn lemma_diff_stable(
    s: Server,
    pairs: Seq<(Seq<char>, Seq<char>)>,
    answers: Seq<Answer>,
    more: Seq<Answer>,
)
    ensures
        server::diff_step(s, pairs, answers) matches StepView::Done(r, n) ==> n <= answers.len()
            && server::diff_step(s, pairs, answers + more) == server::diff_step(s, pairs, answers),
        answers.len() >= 20 ==> server::diff_step(s, pairs, answers) is Done,
{
    match server::range_param(pairs, " parameter"@) {
        Ok(ends) => {
            let filter = server::filter_param(pairs);
            let with_log = !server::switched_on(pairs, "nolog"@);
            let paths = query::filter_pathspecs(filter);
            if answers.len() > 1 {
                let p = prompt::effective_prompt(
                    server::diff_prompt(s, answers[1]),
                    s.lang@,
                    s.gia_audio,
                );
                lemma_gia_diff_stable(
                    s.repo_path@,
                    ends.0,
                    ends.1,
                    p,
                    with_log,
                    s.gia_audio,
                    paths,
                    answers,
                    more,
                    2,
                );
                match summary::gia_diff_step(
                    s.repo_path@,
                    ends.0,
                    ends.1,
                    p,
                    with_log,
                    s.gia_audio,
                    paths,
                    answers,
                    2,
                ) {
                    StepView::Done(said, n) => {
                        lemma_summary_reply_stable(
                            s,
                            ends.0,
                            ends.1,
                            filter,
                            said,
                            answers,
                            more,
                            n,
                        );
                    },
                    _ => {},
                }
            }
        },
        Err(_) => {},
    }
}

proof fn lemma_log_summary_stable(
    s: Server,
    pairs: Seq<(Seq<char>, Seq<char>)>,
    answers: Seq<Answer>,
    more: Seq<Answer>,
)
    ensures
        server::log_summary_step(s, pairs, answers) matches StepView::Done(r, n) ==> n
            <= answers.len() && server::log_summary_step(s, pairs, answers + more)
            == server::log_summary_step(s, pairs, answers),
        answers.len() >= 20 ==> server::log_summary_step(s, pairs, answers) is Done,
{
    match server::range_param(pairs, ""@) {
        Ok(ends) => {
            let filter = server::filter_param(pairs);
            let p = prompt::effective_prompt(
                server::log_prompt(s),
                s.lang@,
                s.gia_audio,
            );
            lemma_gia_log_stable(
                s.repo_path@,
                ends.0,
                ends.1,
                p,
                s.gia_audio,
                answers,
                more,
                1,
            );
            match summary::gia_log_step(
                s.repo_path@,
                ends.0,
                ends.1,
                p,
                s.gia_audio,
                answers,
                1,
            ) {
                StepView::Done(said, n) => {
                    lemma_summary_reply_stable(
                        s,
                        ends.0,
                        ends.1,
                        filter,
                        said,
                        answers,
                        more,
                        n,
                    );
                },
                _ => {},
            }
        },
        Err(_) => {},
    }
}

proof fn lemma_single_stable(
    s: Server,
    pairs: Seq<(Seq<char>, Seq<char>)>,
    answers: Seq<Answer>,
    more: Seq<Answer>,
)
    ensures
        server::single_step(s, pairs, answers) matches StepView::Done(r, n) ==> n
            <= answers.len() && server::single_step(s, pairs, answers + more)
            == server::single_step(s, pairs, answers),
        answers.len() >= 20 ==> server::single_step(s, pairs, answers) is Done,
{
    match server::sha_param(pairs, "commit"@) {
        Some(commit) => {
            if answers.len() > 0 {
                let parent = range::first_parent(answers[0]);
                let q = server::diff_request(s, parent, commit, server::filter_param(pairs));
                lemma_child_stable(s.repo_path@, commit, answers, more, 2);
                match range::child_step(s.repo_path@, commit, answers, 2) {
                    StepView::Done(newer, n) => {
                        lemma_page_stable(q, answers, more, n);
                    },
                    _ => {},
                }
            }
        },
        None => {},
    }
}

/// Every request comes to an end: once there are enough answers, there is a reply. Twenty are
/// enough, but for a tag, which is deleted from each remote.
pub proof fn law_requests_come_to_an_end(s: Server, line: Seq<char>, answers: Seq<Answer>)
    requires
        enough(line, answers),
    ensures
        server::request_step(s, line, answers) is Done,
{
    lemma_request(s, line, answers, seq![]);
}

/// A reply stays as it is, whatever else is answered.
pub proof fn law_replies_are_final(
    s: Server,
    line: Seq<char>,
    answers: Seq<Answer>,
    more: Seq<Answer>,
)
    requires
        server::request_step(s, line, answers) is Done,
    ensures
        server::request_step(s, line, answers + more) == server::request_step(s, line, answers),
{
    lemma_request(s, line, answers, more);
}

} // verus!
