//! Ranges of commits: what has to be asked of `git` about two commits, and what its answers mean.

use vstd::prelude::*;

use crate::cards;
use crate::cards::{batch_file_counts, render_commit_cards};
use crate::html_page;
use crate::html_page::short_sha;
use crate::job;
use crate::job::{
    command, command_with_paths, concat, get_printed, has_succeeded, write_failure, Answer, Ask,
    AskView, Step, StepView,
};
use crate::lines;
use crate::lines::{split_lines, split_words, trimmed};
use crate::prompt;
use crate::search;
use crate::search::cut;
use crate::text;
use crate::text::{begins_with, without_prefix};

verus! {

/// The format of the logs that are turned into cards.
pub const LOG_FORMAT: &'static str = "--pretty=format:### %h, %an, %ar, %D%n%n%s%n%b%n";

// ---------------------------------------------------------------------------------------------
// Commands
// ---------------------------------------------------------------------------------------------

/// Asks whether `a` is an ancestor of `b`.
pub open spec fn ancestor_args(repo: Seq<char>, a: Seq<char>, b: Seq<char>) -> Seq<Seq<char>> {
    seq!["-C"@, repo, "merge-base"@, "--is-ancestor"@, a, b]
}

/// Asks for the best common ancestor.
pub open spec fn merge_base_args(repo: Seq<char>, a: Seq<char>, b: Seq<char>) -> Seq<Seq<char>> {
    seq!["-C"@, repo, "merge-base"@, a, b]
}

/// Asks whether there is any difference.
pub open spec fn quiet_args(
    repo: Seq<char>,
    a: Seq<char>,
    b: Seq<char>,
    paths: Seq<Seq<char>>,
) -> Seq<Seq<char>> {
    job::with_paths(seq!["-C"@, repo, "diff"@, "--quiet"@, a, b], paths)
}

/// Asks for the names of the files that differ.
pub open spec fn names_args(
    repo: Seq<char>,
    a: Seq<char>,
    b: Seq<char>,
    paths: Seq<Seq<char>>,
) -> Seq<Seq<char>> {
    job::with_paths(seq!["-C"@, repo, "diff"@, "--name-only"@, "-w"@, a, b], paths)
}

/// Asks for the differences.
pub open spec fn diff_args(
    repo: Seq<char>,
    a: Seq<char>,
    b: Seq<char>,
    paths: Seq<Seq<char>>,
) -> Seq<Seq<char>> {
    job::with_paths(seq!["-C"@, repo, "diff"@, "-w"@, a, b], paths)
}

/// Asks for the log of what `a` and `b` reach and `base` does not.
pub open spec fn log_args(
    repo: Seq<char>,
    base: Seq<char>,
    a: Seq<char>,
    b: Seq<char>,
) -> Seq<Seq<char>> {
    seq!["-C"@, repo, "log"@, LOG_FORMAT@, "^"@ + base, a, b]
}

/// Asks for the same log in the form that the AI tool gets.
pub open spec fn metadata_args(
    repo: Seq<char>,
    base: Seq<char>,
    a: Seq<char>,
    b: Seq<char>,
) -> Seq<Seq<char>> {
    seq![
        "-C"@,
        repo,
        "log"@,
        prompt::GIT_LOG_METADATA_FORMAT@,
        "--name-status"@,
        "^"@ + base,
        a,
        b,
    ]
}

/// Asks for the files of each commit that `a` and `b` reach and `base` does not.
pub open spec fn files_args(
    repo: Seq<char>,
    base: Seq<char>,
    a: Seq<char>,
    b: Seq<char>,
) -> Seq<Seq<char>> {
    seq![
        "-C"@,
        repo,
        "log"@,
        "--format=COMMIT %h"@,
        "--name-only"@,
        "^"@ + base,
        a,
        b,
    ]
}

/// Asks for the files of each commit that `a` reaches and `base` does not.
pub open spec fn short_files_args(repo: Seq<char>, base: Seq<char>, a: Seq<char>) -> Seq<
    Seq<char>,
> {
    seq!["-C"@, repo, "log"@, "--format=COMMIT %h"@, "--name-only"@, "^"@ + base, a]
}

/// Asks for the refs that point at a commit.
pub open spec fn label_args(repo: Seq<char>, sha: Seq<char>) -> Seq<Seq<char>> {
    seq!["-C"@, repo, "log"@, "-1"@, "--pretty=format:%D"@, sha]
}

/// Asks for the parents of a commit.
pub open spec fn parents_args(repo: Seq<char>, sha: Seq<char>) -> Seq<Seq<char>> {
    seq!["-C"@, repo, "log"@, "-1"@, "--pretty=%P"@, sha]
}

/// Asks for the commits between a commit and HEAD.
pub open spec fn ancestry_args(repo: Seq<char>, sha: Seq<char>) -> Seq<Seq<char>> {
    seq!["-C"@, repo, "rev-list"@, "--ancestry-path"@, sha + "..HEAD"@]
}

/// Asks for all commits with their parents.
pub open spec fn all_parents_args(repo: Seq<char>) -> Seq<Seq<char>> {
    seq!["-C"@, repo, "log"@, "--all"@, "--format=%H %P"@]
}

/// A base as a log leaves it out.
fn excluded(base: &str) -> (r: String)
    ensures
        r@ == "^"@ + base@,
{
    concat("^", base)
}

/// Asks whether `a` is an ancestor of `b`.
pub fn ask_ancestor(repo: &str, a: &str, b: &str) -> (r: Ask)
    ensures
        r@ == AskView::GitStatus(ancestor_args(repo@, a@, b@)),
{
    let parts: Vec<&str> = vec!["-C", repo, "merge-base", "--is-ancestor", a, b];
    assert(job::str_views(parts@) =~= ancestor_args(repo@, a@, b@));
    Ask::GitStatus(command(parts))
}

/// Asks for the best common ancestor.
pub fn ask_merge_base(repo: &str, a: &str, b: &str) -> (r: Ask)
    ensures
        r@ == AskView::GitOutput(merge_base_args(repo@, a@, b@)),
{
    let parts: Vec<&str> = vec!["-C", repo, "merge-base", a, b];
    assert(job::str_views(parts@) =~= merge_base_args(repo@, a@, b@));
    Ask::GitOutput(command(parts))
}

/// Asks whether there is any difference.
pub fn ask_quiet(repo: &str, a: &str, b: &str, paths: &Vec<String>) -> (r: Ask)
    ensures
        r@ == AskView::GitStatus(quiet_args(repo@, a@, b@, text::views(paths@))),
{
    let parts: Vec<&str> = vec!["-C", repo, "diff", "--quiet", a, b];
    assert(job::str_views(parts@) =~= seq!["-C"@, repo@, "diff"@, "--quiet"@, a@, b@]);
    Ask::GitStatus(command_with_paths(parts, paths))
}

/// Asks for the names of the files that differ.
pub fn ask_names(repo: &str, a: &str, b: &str, paths: &Vec<String>) -> (r: Ask)
    ensures
        r@ == AskView::GitOutput(names_args(repo@, a@, b@, text::views(paths@))),
{
    let parts: Vec<&str> = vec!["-C", repo, "diff", "--name-only", "-w", a, b];
    assert(job::str_views(parts@) =~= seq![
        "-C"@,
        repo@,
        "diff"@,
        "--name-only"@,
        "-w"@,
        a@,
        b@,
    ]);
    Ask::GitOutput(command_with_paths(parts, paths))
}

/// Asks for the differences.
pub fn ask_diff(repo: &str, a: &str, b: &str, paths: &Vec<String>) -> (r: Ask)
    ensures
        r@ == AskView::GitOutput(diff_args(repo@, a@, b@, text::views(paths@))),
{
    let parts: Vec<&str> = vec!["-C", repo, "diff", "-w", a, b];
    assert(job::str_views(parts@) =~= seq!["-C"@, repo@, "diff"@, "-w"@, a@, b@]);
    Ask::GitOutput(command_with_paths(parts, paths))
}

/// Asks for the log of a range.
pub fn ask_log(repo: &str, base: &str, a: &str, b: &str) -> (r: Ask)
    ensures
        r@ == AskView::GitOutput(log_args(repo@, base@, a@, b@)),
{
    let except = excluded(base);
    let parts: Vec<&str> = vec!["-C", repo, "log", LOG_FORMAT, except.as_str(), a, b];
    assert(job::str_views(parts@) =~= log_args(repo@, base@, a@, b@));
    Ask::GitOutput(command(parts))
}

/// Asks for the log of a range in the form that the AI tool gets.
pub fn git_log_metadata(repo: &str, base: &str, a: &str, b: &str) -> (r: Ask)
    ensures
        r@ == AskView::GitOutput(metadata_args(repo@, base@, a@, b@)),
{
    let except = excluded(base);
    let parts: Vec<&str> = vec![
        "-C",
        repo,
        "log",
        prompt::GIT_LOG_METADATA_FORMAT,
        "--name-status",
        except.as_str(),
        a,
        b,
    ];
    assert(job::str_views(parts@) =~= metadata_args(repo@, base@, a@, b@));
    Ask::GitOutput(command(parts))
}

/// Asks for the files of each commit of a range.
pub fn ask_files(repo: &str, base: &str, a: &str, b: &str) -> (r: Ask)
    ensures
        r@ == AskView::GitOutput(files_args(repo@, base@, a@, b@)),
{
    let except = excluded(base);
    let parts: Vec<&str> = vec![
        "-C",
        repo,
        "log",
        "--format=COMMIT %h",
        "--name-only",
        except.as_str(),
        a,
        b,
    ];
    assert(job::str_views(parts@) =~= files_args(repo@, base@, a@, b@));
    Ask::GitOutput(command(parts))
}

/// Asks for the files of each commit behind one commit.
pub fn ask_short_files(repo: &str, base: &str, a: &str) -> (r: Ask)
    ensures
        r@ == AskView::GitOutput(short_files_args(repo@, base@, a@)),
{
    let except = excluded(base);
    let parts: Vec<&str> = vec![
        "-C",
        repo,
        "log",
        "--format=COMMIT %h",
        "--name-only",
        except.as_str(),
        a,
    ];
    assert(job::str_views(parts@) =~= short_files_args(repo@, base@, a@));
    Ask::GitOutput(command(parts))
}

/// Asks for the refs that point at a commit.
pub fn ask_label(repo: &str, sha: &str) -> (r: Ask)
    ensures
        r@ == AskView::GitOutput(label_args(repo@, sha@)),
{
    let parts: Vec<&str> = vec!["-C", repo, "log", "-1", "--pretty=format:%D", sha];
    assert(job::str_views(parts@) =~= label_args(repo@, sha@));
    Ask::GitOutput(command(parts))
}

/// Asks for the parents of a commit.
pub fn ask_parents(repo: &str, sha: &str) -> (r: Ask)
    ensures
        r@ == AskView::GitOutput(parents_args(repo@, sha@)),
{
    let parts: Vec<&str> = vec!["-C", repo, "log", "-1", "--pretty=%P", sha];
    assert(job::str_views(parts@) =~= parents_args(repo@, sha@));
    Ask::GitOutput(command(parts))
}

// ---------------------------------------------------------------------------------------------
// Base and order
// ---------------------------------------------------------------------------------------------

/// The commit that a range starts from: the first commit where it is an ancestor of the second,
/// else their best common ancestor.
pub open spec fn base_step(
    repo: Seq<char>,
    a: Seq<char>,
    b: Seq<char>,
    answers: Seq<Answer>,
    at: nat,
) -> StepView<Result<Seq<char>, Seq<char>>> {
    if at >= answers.len() {
        StepView::Ask(AskView::GitStatus(ancestor_args(repo, a, b)))
    } else {
        match answers[at as int].error {
            Some(e) => StepView::Done(
                Err("git merge-base --is-ancestor failed to start: "@ + e@),
                at + 1,
            ),
            None => if answers[at as int].success {
                StepView::Done(Ok(a), at + 1)
            } else if at + 1 >= answers.len() {
                StepView::Ask(AskView::GitOutput(merge_base_args(repo, a, b)))
            } else {
                StepView::Done(common_ancestor(answers[(at + 1) as int]), at + 2)
            },
        }
    }
}

/// The best common ancestor, as `git` answered.
pub open spec fn common_ancestor(answer: Answer) -> Result<Seq<char>, Seq<char>> {
    match answer.error {
        Some(e) => Err("git merge-base failed to start: "@ + e@),
        None => if !answer.success {
            Err(job::failure("git merge-base"@, answer))
        } else if lines::trim(answer.stdout@).len() == 0 {
            Err("git merge-base returned empty output"@)
        } else {
            Ok(lines::trim(answer.stdout@))
        },
    }
}

/// The commit that a range starts from.
pub fn resolve_diff_base(repo: &str, a: &str, b: &str, answers: &Vec<Answer>, at: usize) -> (r: Step<
    Result<String, String>,
>)
    ensures
        job::result_step(r) == base_step(repo@, a@, b@, answers@, at as nat),
{
    if at >= answers.len() {
        return Step::Ask(ask_ancestor(repo, a, b));
    }
    match &answers[at].error {
        Some(e) => {
            return Step::Done(
                Err(concat("git merge-base --is-ancestor failed to start: ", e.as_str())),
                at + 1,
            );
        },
        None => {},
    }
    if answers[at].success {
        return Step::Done(Ok(a.to_owned()), at + 1);
    }
    if at + 1 >= answers.len() {
        return Step::Ask(ask_merge_base(repo, a, b));
    }
    let answer = &answers[at + 1];
    let result = match &answer.error {
        Some(e) => Err(concat("git merge-base failed to start: ", e.as_str())),
        None => {
            if !answer.success {
                Err(write_failure("git merge-base", answer))
            } else {
                let base = trimmed(answer.stdout.as_str());
                if base.as_str().is_empty() {
                    Err("git merge-base returned empty output".to_owned())
                } else {
                    Ok(base)
                }
            }
        },
    };
    Step::Done(result, at + 2)
}

/// The older and the newer of two commits: the second one counts as the older unless the first is
/// an ancestor of it.
pub open spec fn ordered(a: Seq<char>, b: Seq<char>, answer: Answer) -> (Seq<char>, Seq<char>) {
    if job::succeeded(answer) {
        (a, b)
    } else {
        (b, a)
    }
}

/// The older and the newer of two commits.
pub fn order<'a>(a: &'a str, b: &'a str, answer: &Answer) -> (r: (&'a str, &'a str))
    ensures
        (r.0@, r.1@) == ordered(a@, b@, *answer),
{
    if has_succeeded(answer) {
        (a, b)
    } else {
        (b, a)
    }
}

/// Whether two commits differ. Where `git` could not tell, they are taken to.
pub open spec fn differs(answer: Answer) -> bool {
    answer.error is Some || !answer.success
}

/// Whether two commits differ.
pub fn has_git_diff(answer: &Answer) -> (r: bool)
    ensures
        r == differs(*answer),
{
    answer.error.is_some() || !answer.success
}

// ---------------------------------------------------------------------------------------------
// Labels
// ---------------------------------------------------------------------------------------------

/// The first of the given decorations that names a branch or a tag.
pub open spec fn named_ref(parts: Seq<Seq<char>>) -> Option<Seq<char>>
    decreases parts.len(),
{
    if parts.len() == 0 {
        None
    } else {
        let part = lines::trim(parts[0]);
        match text::strip_prefix(part, "HEAD -> "@) {
            Some(branch) => Some(branch),
            None => if !text::starts_with(part, "HEAD"@) && part.len() > 0 {
                Some(part)
            } else {
                named_ref(parts.drop_first())
            },
        }
    }
}

/// The name of a commit for people: a branch or a tag with the short hash, or the short hash.
pub open spec fn ref_label(sha: Seq<char>, answer: Answer) -> Seq<char> {
    match named_ref(search::split(lines::trim(job::printed(answer)), ","@)) {
        Some(name) => name + " ("@ + html_page::short(sha) + ")"@,
        None => html_page::short(sha),
    }
}

/// The name of a commit for people.
pub fn get_ref_label(sha: &str, answer: &Answer) -> (r: String)
    ensures
        r@ == ref_label(sha@, *answer),
{
    proof {
        reveal_strlit(",");
    }
    let output = get_printed(answer);
    let deco = trimmed(output.as_str());
    let parts = cut(deco.as_str(), ",");
    let ghost ps = search::split(deco@, ","@);
    let short = short_sha(sha);
    let mut i: usize = 0;
    assert(ps.skip(0) =~= ps);
    while i < parts.len()
        invariant
            text::views(parts@) == ps,
            i <= parts@.len(),
            short@ == html_page::short(sha@),
            ps == search::split(lines::trim(job::printed(*answer)), ","@),
            named_ref(ps) == named_ref(ps.skip(i as int)),
        decreases parts@.len() - i,
    {
        assert(ps.skip(i as int)[0] == parts@[i as int]@);
        assert(ps.skip(i as int).drop_first() =~= ps.skip(i + 1));
        let part = trimmed(parts[i].as_str());
        let name = match without_prefix(part.as_str(), "HEAD -> ") {
            Some(branch) => Some(branch),
            None => {
                if !begins_with(part.as_str(), "HEAD") && !part.as_str().is_empty() {
                    Some(part)
                } else {
                    None
                }
            },
        };
        match name {
            Some(name) => {
                let mut out = name;
                out.append(" (");
                out.append(short.as_str());
                out.append(")");
                return out;
            },
            None => {},
        }
        i = i + 1;
    }
    assert(parts@.len() == ps.len());
    short
}

/// What the AI tool is told of the heading of its answer.
pub open spec fn header_text(label1: Seq<char>, label2: Seq<char>) -> Seq<char> {
    "Use the following as the heading/title of your response: \""@ + label1 + " → "@ + label2
        + "\""@
}

/// What the AI tool is told of the heading of its answer.
pub fn write_header_text(label1: &str, label2: &str) -> (r: String)
    ensures
        r@ == header_text(label1@, label2@),
{
    let mut out = "Use the following as the heading/title of your response: \"".to_owned();
    out.append(label1);
    out.append(" → ");
    out.append(label2);
    out.append("\"");
    out
}

// ---------------------------------------------------------------------------------------------
// The log of a range
// ---------------------------------------------------------------------------------------------

/// The commit that a log leaves out: the best common ancestor, or the older commit where there is
/// none.
pub open spec fn log_base(older: Seq<char>, answer: Answer) -> Seq<char> {
    if job::succeeded(answer) && answer.utf8 && lines::trim(answer.stdout@).len() > 0 {
        lines::trim(answer.stdout@)
    } else {
        older
    }
}

/// The commits on both sides of a range, as cards, and how many they are.
pub open spec fn cards_step(
    repo: Seq<char>,
    a: Seq<char>,
    b: Seq<char>,
    older: Seq<char>,
    answers: Seq<Answer>,
    at: nat,
) -> StepView<(Seq<char>, nat)> {
    if at >= answers.len() {
        StepView::Ask(AskView::GitOutput(merge_base_args(repo, a, b)))
    } else {
        let base = log_base(older, answers[at as int]);
        if at + 1 >= answers.len() {
            StepView::Ask(AskView::GitOutput(log_args(repo, base, a, b)))
        } else if at + 2 >= answers.len() {
            StepView::Ask(AskView::GitOutput(files_args(repo, base, a, b)))
        } else {
            StepView::Done(
                cards::log_cards(
                    cards::counts_in(lines::lines(job::printed(answers[(at + 2) as int]))),
                    job::printed(answers[(at + 1) as int]),
                ),
                at + 3,
            )
        }
    }
}

/// What a step that yields cards holds.
pub open spec fn counted_step(s: Step<(String, usize)>) -> StepView<(Seq<char>, nat)> {
    match s {
        Step::Ask(a) => StepView::Ask(a@),
        Step::Done(t, n) => StepView::Done((t.0@, t.1 as nat), n as nat),
    }
}

/// The commits on both sides of a range, as cards, and how many they are.
pub fn collect_cards(
    repo: &str,
    a: &str,
    b: &str,
    older: &str,
    answers: &Vec<Answer>,
    at: usize,
) -> (r: Step<(String, usize)>)
    ensures
        counted_step(r) == cards_step(repo@, a@, b@, older@, answers@, at as nat),
{
    if at >= answers.len() {
        return Step::Ask(ask_merge_base(repo, a, b));
    }
    let answer = &answers[at];
    let found = trimmed(answer.stdout.as_str());
    let base = if has_succeeded(answer) && answer.utf8 && !found.as_str().is_empty() {
        found
    } else {
        older.to_owned()
    };
    assert(base@ == log_base(older@, *answer));
    if at + 1 >= answers.len() {
        return Step::Ask(ask_log(repo, base.as_str(), a, b));
    }
    if answers.len() - at <= 2 {
        return Step::Ask(ask_files(repo, base.as_str(), a, b));
    }
    let log = get_printed(&answers[at + 1]);
    let list = get_printed(&answers[at + 2]);
    let counts = batch_file_counts(list.as_str());
    let cards = render_commit_cards(&counts, log.as_str());
    Step::Done(cards, at + 3)
}

// ---------------------------------------------------------------------------------------------
// Neighbours
// ---------------------------------------------------------------------------------------------

/// The tree without files.
pub const EMPTY_TREE: &'static str = "4b825dc642cb6eb9a060e54bf8d69288fbee4904";

/// The first parent of a commit, or the empty tree for a commit without parents.
pub open spec fn first_parent(answer: Answer) -> Seq<char> {
    let ws = lines::words(lines::trim(job::printed(answer)));
    if ws.len() > 0 {
        text::first_chars(ws[0], 40)
    } else {
        EMPTY_TREE@
    }
}

/// The first parent of a commit, or the empty tree for a commit without parents.
pub fn find_first_parent(answer: &Answer) -> (r: String)
    ensures
        r@ == first_parent(*answer),
{
    let output = get_printed(answer);
    let list = trimmed(output.as_str());
    let words = split_words(list.as_str());
    assert(words@.len() == text::views(words@).len());
    if words.len() > 0 {
        assert(text::views(words@)[0] == words@[0]@);
        text::take_chars(words[0].as_str(), 40)
    } else {
        EMPTY_TREE.to_owned()
    }
}

/// Whether one of two hashes is the beginning of the other.
pub open spec fn same_commit(a: Seq<char>, b: Seq<char>) -> bool {
    text::starts_with(a, b) || text::starts_with(b, a)
}

/// The first commit in a list that has `commit` among its parents. Each line of the list holds a
/// commit and its parents; at a line without words the search ends.
pub open spec fn child_in(ls: Seq<Seq<char>>, commit: Seq<char>) -> Option<Seq<char>>
    decreases ls.len(),
{
    if ls.len() == 0 {
        None
    } else {
        let ws = lines::words(ls[0]);
        if ws.len() == 0 {
            None
        } else if exists|i: int| 1 <= i < ws.len() && same_commit(#[trigger] ws[i], commit) {
            Some(ws[0])
        } else {
            child_in(ls.drop_first(), commit)
        }
    }
}

/// The last line of a text without the blanks round it.
pub open spec fn last_line(s: Seq<char>) -> Seq<char> {
    let ls = lines::lines(lines::trim(s));
    if ls.len() > 0 {
        ls.last()
    } else {
        seq![]
    }
}

/// The next newer commit: on the way to HEAD, or else anywhere in the repository.
pub open spec fn child_step(
    repo: Seq<char>,
    commit: Seq<char>,
    answers: Seq<Answer>,
    at: nat,
) -> StepView<Option<Seq<char>>> {
    if at >= answers.len() {
        StepView::Ask(AskView::GitOutput(ancestry_args(repo, commit)))
    } else if answers[at as int].error is Some {
        StepView::Done(None, at + 1)
    } else if answers[at as int].success && last_line(answers[at as int].stdout@).len() > 0 {
        StepView::Done(Some(last_line(answers[at as int].stdout@)), at + 1)
    } else if at + 1 >= answers.len() {
        StepView::Ask(AskView::GitOutput(all_parents_args(repo)))
    } else {
        StepView::Done(child_in(lines::lines(job::printed(answers[(at + 1) as int])), commit), at + 2)
    }
}

/// What a step that yields a text or nothing holds.
pub open spec fn option_step(s: Step<Option<String>>) -> StepView<Option<Seq<char>>> {
    match s {
        Step::Ask(a) => StepView::Ask(a@),
        Step::Done(t, n) => StepView::Done(text::opt_view(t), n as nat),
    }
}

/// Whether some word but the first is the hash `commit`.
fn has_parent(words: &Vec<String>, commit: &str) -> (r: bool)
    ensures
        r == exists|i: int|
            1 <= i < text::views(words@).len() && same_commit(
                #[trigger] text::views(words@)[i],
                commit@,
            ),
{
    let ghost ws = text::views(words@);
    let mut i: usize = 1;
    while i < words.len()
        invariant
            1 <= i,
            ws == text::views(words@),
            i <= words@.len() || words@.len() == 0,
            forall|j: int| 1 <= j < i ==> !same_commit(#[trigger] ws[j], commit@),
        decreases words@.len() - i,
    {
        assert(ws[i as int] == words@[i as int]@);
        if begins_with(words[i].as_str(), commit) || begins_with(commit, words[i].as_str()) {
            assert(same_commit(ws[i as int], commit@));
            return true;
        }
        i = i + 1;
    }
    false
}

/// The first commit in a list that has `commit` among its parents.
fn find_child(list: &str, commit: &str) -> (r: Option<String>)
    ensures
        text::opt_view(r) == child_in(lines::lines(list@), commit@),
{
    let all = split_lines(list);
    let ghost ls = lines::lines(list@);
    let mut i: usize = 0;
    assert(ls.skip(0) =~= ls);
    while i < all.len()
        invariant
            text::views(all@) == ls,
            ls == lines::lines(list@),
            i <= all@.len(),
            child_in(ls, commit@) == child_in(ls.skip(i as int), commit@),
        decreases all@.len() - i,
    {
        assert(ls.skip(i as int)[0] == all@[i as int]@);
        assert(ls.skip(i as int).drop_first() =~= ls.skip(i + 1));
        let words = split_words(all[i].as_str());
        assert(words@.len() == text::views(words@).len());
        if words.len() == 0 {
            return None;
        }
        if has_parent(&words, commit) {
            assert(text::views(words@)[0] == words@[0]@);
            return Some(words[0].clone());
        }
        i = i + 1;
    }
    assert(all@.len() == ls.len());
    None
}

/// The next newer commit.
pub fn find_child_commit(repo: &str, commit: &str, answers: &Vec<Answer>, at: usize) -> (r: Step<
    Option<String>,
>)
    ensures
        option_step(r) == child_step(repo@, commit@, answers@, at as nat),
{
    if at >= answers.len() {
        let to_head = concat(commit, "..HEAD");
        let parts: Vec<&str> = vec!["-C", repo, "rev-list", "--ancestry-path", to_head.as_str()];
        assert(job::str_views(parts@) =~= ancestry_args(repo@, commit@));
        return Step::Ask(Ask::GitOutput(command(parts)));
    }
    let answer = &answers[at];
    if answer.error.is_some() {
        return Step::Done(None, at + 1);
    }
    if answer.success {
        let output = trimmed(answer.stdout.as_str());
        let all = split_lines(output.as_str());
        let n = all.len();
        assert(n == text::views(all@).len());
        if n > 0 {
            assert(text::views(all@).last() == all@[n - 1]@);
            if !all[n - 1].as_str().is_empty() {
                return Step::Done(Some(all[n - 1].clone()), at + 1);
            }
        }
    }
    if at + 1 >= answers.len() {
        let parts: Vec<&str> = vec!["-C", repo, "log", "--all", "--format=%H %P"];
        assert(job::str_views(parts@) =~= all_parents_args(repo@));
        return Step::Ask(Ask::GitOutput(command(parts)));
    }
    let list = get_printed(&answers[at + 1]);
    Step::Done(find_child(list.as_str(), commit), at + 2)
}

} // verus!
