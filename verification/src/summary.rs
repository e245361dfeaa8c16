//! Summaries of ranges of commits by the AI tool.

use vstd::prelude::*;

use crate::job;
use crate::job::{
    command, concat, has_answer, has_succeeded, write_failure, Answer, Ask, AskView, Step, StepView,
};
use crate::lines;
use crate::lines::trimmed;
use crate::prompt;
use crate::range;
use crate::range::{
    ask_ancestor, ask_diff, ask_label, get_ref_label, git_log_metadata, order, resolve_diff_base,
    write_header_text,
};
use crate::search;
use crate::search::has_text;
use crate::text;

verus! {

/// What is shown where the AI tool is not installed.
pub const GIA_MISSING: &'static str =
    "The AI summary feature requires **GIA**, a command-line tool that was not found in PATH.\nPlease install it from: [https://github.com/panjamo/gia](https://github.com/panjamo/gia)";

/// `-f` and a file, if there is one.
pub open spec fn file_args(path: Option<Seq<char>>) -> Seq<Seq<char>> {
    match path {
        Some(p) => seq!["-f"@, p],
        None => seq![],
    }
}

/// The arguments for a recording.
pub open spec fn audio_args(audio: bool) -> Seq<Seq<char>> {
    if audio {
        seq!["-a"@, "--audio-dialog-text"@, prompt::AUDIO_DIALOG_TEXT@]
    } else {
        seq![]
    }
}

/// The arguments of the AI tool.
pub open spec fn gia_args(
    prompt: Seq<char>,
    audio: bool,
    header: Option<Seq<char>>,
    meta: Option<Seq<char>>,
) -> Seq<Seq<char>> {
    seq!["--markdown"@, prompt] + audio_args(audio) + file_args(header) + file_args(meta)
}

/// The arguments of the AI tool.
pub fn build_gia_args(prompt: &str, audio: bool, header: Option<&str>, meta: Option<&str>) -> (r: Vec<
    String,
>)
    ensures
        text::views(r@) == gia_args(
            prompt@,
            audio,
            text::opt_str_view(header),
            text::opt_str_view(meta),
        ),
{
    let mut parts: Vec<&str> = vec!["--markdown", prompt];
    assert(job::str_views(parts@) =~= seq!["--markdown"@, prompt@]);
    if audio {
        parts.push("-a");
        parts.push("--audio-dialog-text");
        parts.push(prompt::AUDIO_DIALOG_TEXT);
    }
    assert(job::str_views(parts@) =~= seq!["--markdown"@, prompt@] + audio_args(audio));
    let ghost before = job::str_views(parts@);
    match header {
        Some(path) => {
            parts.push("-f");
            parts.push(path);
        },
        None => {},
    }
    assert(job::str_views(parts@) =~= before + file_args(text::opt_str_view(header)));
    let ghost headed = job::str_views(parts@);
    match meta {
        Some(path) => {
            parts.push("-f");
            parts.push(path);
        },
        None => {},
    }
    assert(job::str_views(parts@) =~= headed + file_args(text::opt_str_view(meta)));
    command(parts)
}

/// The summary that the AI tool gave, or why there is none. Where the user broke the recording
/// off it is empty.
pub open spec fn gia_result(answer: Answer) -> Seq<char> {
    match answer.error {
        Some(e) => if !answer.started && answer.not_found {
            GIA_MISSING@
        } else if !answer.started {
            "Error starting gia: "@ + e@
        } else {
            "Error waiting for gia: "@ + e@
        },
        None => {
            let said = if lines::trim(answer.stdout@).len() == 0 {
                lines::trim(answer.stderr@)
            } else {
                lines::trim(answer.stdout@)
            };
            if search::contains_text(said, "Recording cancelled by user"@) {
                seq![]
            } else {
                said
            }
        },
    }
}

/// The summary that the AI tool gave, or why there is none.
pub fn read_gia_result(answer: &Answer) -> (r: String)
    ensures
        r@ == gia_result(*answer),
{
    match &answer.error {
        Some(e) => {
            if !answer.started && answer.not_found {
                GIA_MISSING.to_owned()
            } else if !answer.started {
                concat("Error starting gia: ", e.as_str())
            } else {
                concat("Error waiting for gia: ", e.as_str())
            }
        },
        None => {
            let stdout = trimmed(answer.stdout.as_str());
            let said = if stdout.as_str().is_empty() {
                trimmed(answer.stderr.as_str())
            } else {
                stdout
            };
            if has_text(said.as_str(), "Recording cancelled by user") {
                String::new()
            } else {
                said
            }
        },
    }
}

/// The file that was written, if it was.
pub open spec fn written(answer: Answer) -> Option<Seq<char>> {
    if job::succeeded(answer) {
        Some(answer.stdout@)
    } else {
        None
    }
}

/// The file that was written, if it was.
fn get_written(answer: &Answer) -> (r: Option<&str>)
    ensures
        text::opt_str_view(r) == written(*answer),
{
    if has_succeeded(answer) {
        Some(answer.stdout.as_str())
    } else {
        None
    }
}

/// The files to be removed.
pub open spec fn leftovers(header: Option<Seq<char>>, meta: Option<Seq<char>>) -> Seq<Seq<char>> {
    let first = match header {
        Some(h) => seq![h],
        None => seq![],
    };
    match meta {
        Some(m) => first.push(m),
        None => first,
    }
}

/// The summary `said`, once the files that were written for it are removed.
pub open spec fn cleaned_step(
    said: Seq<char>,
    header: Option<Seq<char>>,
    meta: Option<Seq<char>>,
    answers: Seq<Answer>,
    at: nat,
) -> StepView<Seq<char>> {
    let files = leftovers(header, meta);
    if answers.len() < at + files.len() {
        StepView::Ask(AskView::Remove(files[answers.len() - at]))
    } else {
        StepView::Done(said, at + files.len())
    }
}

/// The summary `said`, once the files that were written for it are removed.
fn clean_up(
    said: String,
    header: Option<&str>,
    meta: Option<&str>,
    answers: &Vec<Answer>,
    at: usize,
) -> (r: Step<String>)
    requires
        at <= answers@.len(),
    ensures
        job::text_step(r) == cleaned_step(
            said@,
            text::opt_str_view(header),
            text::opt_str_view(meta),
            answers@,
            at as nat,
        ),
{
    let mut files: Vec<&str> = Vec::new();
    match header {
        Some(path) => {
            files.push(path);
        },
        None => {},
    }
    match meta {
        Some(path) => {
            files.push(path);
        },
        None => {},
    }
    assert(job::str_views(files@) =~= leftovers(
        text::opt_str_view(header),
        text::opt_str_view(meta),
    ));
    let done = answers.len() - at;
    if done < files.len() {
        assert(job::str_views(files@)[done as int] == files@[done as int]@);
        Step::Ask(Ask::Remove(files[done].to_owned()))
    } else {
        Step::Done(said, at + files.len())
    }
}

/// The summary of what was printed at place `input`: the labels of both commits are looked up and
/// written to a file, and the AI tool is run.
pub open spec fn gia_step(
    repo: Seq<char>,
    a: Seq<char>,
    b: Seq<char>,
    prompt: Seq<char>,
    audio: bool,
    meta: Option<Seq<char>>,
    input: nat,
    answers: Seq<Answer>,
    at: nat,
) -> StepView<Seq<char>> {
    if at >= answers.len() {
        StepView::Ask(AskView::GitOutput(range::label_args(repo, a)))
    } else if at + 1 >= answers.len() {
        StepView::Ask(AskView::GitOutput(range::label_args(repo, b)))
    } else if at + 2 >= answers.len() {
        StepView::Ask(
            AskView::WriteHeader(
                range::header_text(
                    range::ref_label(a, answers[at as int]),
                    range::ref_label(b, answers[(at + 1) as int]),
                ),
            ),
        )
    } else {
        let header = written(answers[(at + 2) as int]);
        if at + 3 >= answers.len() {
            StepView::Ask(AskView::Gia { args: gia_args(prompt, audio, header, meta), input })
        } else {
            let answer = answers[(at + 3) as int];
            if answer.error is Some && !answer.started {
                StepView::Done(gia_result(answer), at + 4)
            } else {
                cleaned_step(gia_result(answer), header, meta, answers, at + 4)
            }
        }
    }
}

/// The summary of what was printed at place `input`.
fn run_gia(
    repo: &str,
    a: &str,
    b: &str,
    prompt: &str,
    audio: bool,
    meta: Option<&str>,
    input: usize,
    answers: &Vec<Answer>,
    at: usize,
) -> (r: Step<String>)
    ensures
        job::text_step(r) == gia_step(
            repo@,
            a@,
            b@,
            prompt@,
            audio,
            text::opt_str_view(meta),
            input as nat,
            answers@,
            at as nat,
        ),
{
    if !has_answer(answers, at, 0) {
        return Step::Ask(ask_label(repo, a));
    }
    if !has_answer(answers, at, 1) {
        return Step::Ask(ask_label(repo, b));
    }
    if !has_answer(answers, at, 2) {
        let label1 = get_ref_label(a, &answers[at]);
        let label2 = get_ref_label(b, &answers[at + 1]);
        return Step::Ask(Ask::WriteHeader(write_header_text(label1.as_str(), label2.as_str())));
    }
    let header = get_written(&answers[at + 2]);
    if !has_answer(answers, at, 3) {
        return Step::Ask(Ask::Gia { args: build_gia_args(prompt, audio, header, meta), input });
    }
    let answer = &answers[at + 3];
    let said = read_gia_result(answer);
    if answer.error.is_some() && !answer.started {
        Step::Done(said, at + 4)
    } else {
        clean_up(said, header, meta, answers, at + 4)
    }
}

/// The summary of the differences between two commits, or why there is none.
pub open spec fn gia_diff_step(
    repo: Seq<char>,
    a: Seq<char>,
    b: Seq<char>,
    prompt: Seq<char>,
    with_log: bool,
    audio: bool,
    paths: Seq<Seq<char>>,
    answers: Seq<Answer>,
    at: nat,
) -> StepView<Seq<char>> {
    match range::base_step(repo, a, b, answers, at) {
        StepView::Ask(ask) => StepView::Ask(ask),
        StepView::Done(Err(e), n) => StepView::Done("Error resolving diff base: "@ + e, n),
        StepView::Done(Ok(base), n) => if n >= answers.len() {
            StepView::Ask(AskView::GitStatus(range::ancestor_args(repo, a, b)))
        } else {
            let ends = range::ordered(a, b, answers[n as int]);
            if n + 1 >= answers.len() {
                StepView::Ask(AskView::GitOutput(range::diff_args(repo, ends.0, ends.1, paths)))
            } else {
                let diff = answers[(n + 1) as int];
                match diff.error {
                    Some(e) => StepView::Done("Error running git diff: "@ + e@, n + 2),
                    None => if !diff.success {
                        StepView::Done(job::failure("git diff"@, diff), n + 2)
                    } else if diff.stdout@.len() == 0 {
                        StepView::Done("No differences found between these commits."@, n + 2)
                    } else if with_log {
                        gia_with_log_step(repo, a, b, base, prompt, audio, n + 1, answers, n + 2)
                    } else {
                        gia_step(repo, a, b, prompt, audio, None, n + 1, answers, n + 2)
                    },
                }
            }
        },
    }
}

/// The summary of the differences that were printed at place `input`, with the log of the range
/// beside it.
pub open spec fn gia_with_log_step(
    repo: Seq<char>,
    a: Seq<char>,
    b: Seq<char>,
    base: Seq<char>,
    prompt: Seq<char>,
    audio: bool,
    input: nat,
    answers: Seq<Answer>,
    at: nat,
) -> StepView<Seq<char>> {
    if at >= answers.len() {
        StepView::Ask(AskView::GitOutput(range::metadata_args(repo, base, a, b)))
    } else {
        let log = answers[at as int];
        match log.error {
            Some(e) => StepView::Done("Error running git log: "@ + e@, at + 1),
            None => if !log.success {
                StepView::Done(job::failure("git log"@, log), at + 1)
            } else if log.stdout@.len() == 0 {
                gia_step(repo, a, b, prompt, audio, None, input, answers, at + 1)
            } else if at + 1 >= answers.len() {
                StepView::Ask(AskView::WriteMeta(at))
            } else {
                gia_step(
                    repo,
                    a,
                    b,
                    prompt,
                    audio,
                    written(answers[(at + 1) as int]),
                    input,
                    answers,
                    at + 2,
                )
            },
        }
    }
}

/// The summary of the differences that were printed at place `input`, with the log of the range
/// beside it.
fn run_gia_with_log(
    repo: &str,
    a: &str,
    b: &str,
    base: &str,
    prompt: &str,
    audio: bool,
    input: usize,
    answers: &Vec<Answer>,
    at: usize,
) -> (r: Step<String>)
    ensures
        job::text_step(r) == gia_with_log_step(
            repo@,
            a@,
            b@,
            base@,
            prompt@,
            audio,
            input as nat,
            answers@,
            at as nat,
        ),
{
    if !has_answer(answers, at, 0) {
        return Step::Ask(git_log_metadata(repo, base, a, b));
    }
    let log = &answers[at];
    match &log.error {
        Some(e) => {
            return Step::Done(concat("Error running git log: ", e.as_str()), at + 1);
        },
        None => {},
    }
    if !log.success {
        return Step::Done(write_failure("git log", log), at + 1);
    }
    if log.stdout.as_str().is_empty() {
        return run_gia(repo, a, b, prompt, audio, None, input, answers, at + 1);
    }
    if !has_answer(answers, at, 1) {
        return Step::Ask(Ask::WriteMeta(at));
    }
    let meta = get_written(&answers[at + 1]);
    run_gia(repo, a, b, prompt, audio, meta, input, answers, at + 2)
}

/// The summary of the differences between two commits, or why there is none.
pub fn run_gia_diff(
    repo: &str,
    a: &str,
    b: &str,
    prompt: &str,
    include_log: bool,
    audio: bool,
    paths: &Vec<String>,
    answers: &Vec<Answer>,
    at: usize,
) -> (r: Step<String>)
    ensures
        job::text_step(r) == gia_diff_step(
            repo@,
            a@,
            b@,
            prompt@,
            include_log,
            audio,
            text::views(paths@),
            answers@,
            at as nat,
        ),
{
    let (base, n) = match resolve_diff_base(repo, a, b, answers, at) {
        Step::Ask(ask) => {
            return Step::Ask(ask);
        },
        Step::Done(Err(e), n) => {
            return Step::Done(concat("Error resolving diff base: ", e.as_str()), n);
        },
        Step::Done(Ok(base), n) => (base, n),
    };
    if !has_answer(answers, n, 0) {
        return Step::Ask(ask_ancestor(repo, a, b));
    }
    let (older, newer) = order(a, b, &answers[n]);
    if !has_answer(answers, n, 1) {
        return Step::Ask(ask_diff(repo, older, newer, paths));
    }
    let diff = &answers[n + 1];
    match &diff.error {
        Some(e) => {
            return Step::Done(concat("Error running git diff: ", e.as_str()), n + 2);
        },
        None => {},
    }
    if !diff.success {
        return Step::Done(write_failure("git diff", diff), n + 2);
    }
    if diff.stdout.as_str().is_empty() {
        return Step::Done("No differences found between these commits.".to_owned(), n + 2);
    }
    if include_log {
        run_gia_with_log(repo, a, b, base.as_str(), prompt, audio, n + 1, answers, n + 2)
    } else {
        run_gia(repo, a, b, prompt, audio, None, n + 1, answers, n + 2)
    }
}

/// The summary of the log of a range, or why there is none.
pub open spec fn gia_log_step(
    repo: Seq<char>,
    a: Seq<char>,
    b: Seq<char>,
    prompt: Seq<char>,
    audio: bool,
    answers: Seq<Answer>,
    at: nat,
) -> StepView<Seq<char>> {
    match range::base_step(repo, a, b, answers, at) {
        StepView::Ask(ask) => StepView::Ask(ask),
        StepView::Done(Err(e), n) => StepView::Done("Error resolving log base: "@ + e, n),
        StepView::Done(Ok(base), n) => if n >= answers.len() {
            StepView::Ask(AskView::GitOutput(range::metadata_args(repo, base, a, b)))
        } else {
            let log = answers[n as int];
            match log.error {
                Some(e) => StepView::Done("Error running git log: "@ + e@, n + 1),
                None => if !log.success {
                    StepView::Done(job::failure("git log"@, log), n + 1)
                } else if log.stdout@.len() == 0 {
                    StepView::Done("No commits found in this range."@, n + 1)
                } else {
                    gia_step(repo, a, b, prompt, audio, None, n, answers, n + 1)
                },
            }
        },
    }
}

/// The summary of the log of a range, or why there is none.
pub fn run_gia_log(
    repo: &str,
    a: &str,
    b: &str,
    prompt: &str,
    audio: bool,
    answers: &Vec<Answer>,
    at: usize,
) -> (r: Step<String>)
    ensures
        job::text_step(r) == gia_log_step(
            repo@,
            a@,
            b@,
            prompt@,
            audio,
            answers@,
            at as nat,
        ),
{
    let (base, n) = match resolve_diff_base(repo, a, b, answers, at) {
        Step::Ask(ask) => {
            return Step::Ask(ask);
        },
        Step::Done(Err(e), n) => {
            return Step::Done(concat("Error resolving log base: ", e.as_str()), n);
        },
        Step::Done(Ok(base), n) => (base, n),
    };
    if !has_answer(answers, n, 0) {
        return Step::Ask(git_log_metadata(repo, base.as_str(), a, b));
    }
    let log = &answers[n];
    match &log.error {
        Some(e) => {
            return Step::Done(concat("Error running git log: ", e.as_str()), n + 1);
        },
        None => {},
    }
    if !log.success {
        return Step::Done(write_failure("git log", log), n + 1);
    }
    if log.stdout.as_str().is_empty() {
        return Step::Done("No commits found in this range.".to_owned(), n + 1);
    }
    run_gia(repo, a, b, prompt, audio, None, n, answers, n + 1)
}

} // verus!
