//! How the web server gets things done.
//!
//! A request is worked on in steps. A step either asks for one piece of outside work, such as a
//! `git` command, or is done. The answers that have come so far, in order, decide what the next
//! step is: whoever works on a request calls the same function again with one more answer, until
//! it is done.

use vstd::prelude::*;

use crate::lines;
use crate::text;

verus! {

/// A piece of outside work.
#[derive(Debug)]
pub enum Ask {
    /// Run `git` and wait for its end.
    GitStatus(Vec<String>),
    /// Run `git` and read what it prints.
    GitOutput(Vec<String>),
    /// Start `git` and leave it to itself.
    GitSpawn(Vec<String>),
    /// Note that the page is alive.
    Heartbeat,
    /// Read the image of the graph.
    ReadSvg,
    /// Find out when the image of the graph was last written.
    SvgTime,
    /// Read the user's prompt for diffs, and write the default one where there is none.
    LoadPrompt,
    /// Write a file for the AI tool that holds this text.
    WriteHeader(String),
    /// Write a file for the AI tool that holds what the answer at this place printed.
    WriteMeta(usize),
    /// Run the AI tool. Its input is what the answer at place `input` printed.
    Gia { args: Vec<String>, input: usize },
    /// Remove a file.
    Remove(String),
}

/// What a piece of outside work holds.
#[verifier::ext_equal]
pub enum AskView {
    GitStatus(Seq<Seq<char>>),
    GitOutput(Seq<Seq<char>>),
    GitSpawn(Seq<Seq<char>>),
    Heartbeat,
    ReadSvg,
    SvgTime,
    LoadPrompt,
    WriteHeader(Seq<char>),
    WriteMeta(nat),
    Gia { args: Seq<Seq<char>>, input: nat },
    Remove(Seq<char>),
}

impl View for Ask {
    type V = AskView;

    open spec fn view(&self) -> AskView {
        match *self {
            Ask::GitStatus(args) => AskView::GitStatus(text::views(args@)),
            Ask::GitOutput(args) => AskView::GitOutput(text::views(args@)),
            Ask::GitSpawn(args) => AskView::GitSpawn(text::views(args@)),
            Ask::Heartbeat => AskView::Heartbeat,
            Ask::ReadSvg => AskView::ReadSvg,
            Ask::SvgTime => AskView::SvgTime,
            Ask::LoadPrompt => AskView::LoadPrompt,
            Ask::WriteHeader(s) => AskView::WriteHeader(s@),
            Ask::WriteMeta(i) => AskView::WriteMeta(i as nat),
            Ask::Gia { args, input } => AskView::Gia { args: text::views(args@), input: input as nat },
            Ask::Remove(s) => AskView::Remove(s@),
        }
    }
}

/// What came of a piece of outside work.
#[derive(Debug)]
pub struct Answer {
    /// What went wrong, where the work could not be done at all.
    pub error: Option<String>,
    /// Whether a program was started.
    pub started: bool,
    /// Whether a program was not there to be started.
    pub not_found: bool,
    /// Whether the work was done, or a program ended with success.
    pub success: bool,
    /// How a program ended, in words.
    pub status: String,
    /// What was read or printed. What is not text is replaced.
    pub stdout: String,
    /// Whether all of it was text.
    pub utf8: bool,
    /// What was printed as errors.
    pub stderr: String,
}

/// A step of a piece of work that yields a `T`: it asks for something, or is done after a number
/// of answers.
#[derive(Debug)]
pub enum Step<T> {
    Ask(Ask),
    Done(T, usize),
}

/// What a step holds.
pub enum StepView<T> {
    Ask(AskView),
    Done(T, nat),
}

/// What a step that yields a text holds.
pub open spec fn text_step(s: Step<String>) -> StepView<Seq<char>> {
    match s {
        Step::Ask(a) => StepView::Ask(a@),
        Step::Done(t, n) => StepView::Done(t@, n as nat),
    }
}

/// What a text, or the text of an error, holds.
pub open spec fn result_view(r: Result<String, String>) -> Result<Seq<char>, Seq<char>> {
    match r {
        Ok(t) => Ok(t@),
        Err(e) => Err(e@),
    }
}

/// What a step that yields a text or an error holds.
pub open spec fn result_step(s: Step<Result<String, String>>) -> StepView<
    Result<Seq<char>, Seq<char>>,
> {
    match s {
        Step::Ask(a) => StepView::Ask(a@),
        Step::Done(t, n) => StepView::Done(result_view(t), n as nat),
    }
}

/// Whether the answer at place `at + k` has come.
pub fn has_answer(answers: &Vec<Answer>, at: usize, k: usize) -> (r: bool)
    ensures
        r == (at + k < answers@.len()),
        r ==> at + k < answers.len(),
{
    answers.len() > k && answers.len() - k > at
}

/// Whether the work was done with success.
pub open spec fn succeeded(a: Answer) -> bool {
    a.error is None && a.success
}

/// Whether the work was done with success.
pub fn has_succeeded(a: &Answer) -> (r: bool)
    ensures
        r == succeeded(*a),
{
    a.error.is_none() && a.success
}

/// What was printed, or nothing where a program could not be started.
pub open spec fn printed(a: Answer) -> Seq<char> {
    if a.error is None {
        a.stdout@
    } else {
        seq![]
    }
}

/// What was printed, or nothing where a program could not be started.
pub fn get_printed(a: &Answer) -> (r: String)
    ensures
        r@ == printed(*a),
{
    if a.error.is_none() {
        a.stdout.clone()
    } else {
        String::new()
    }
}

/// How a program failed, in words.
pub open spec fn failure(what: Seq<char>, a: Answer) -> Seq<char> {
    what + " exited with "@ + a.status@ + ": "@ + lines::trim(a.stderr@)
}

/// How a program failed, in words.
pub fn write_failure(what: &str, a: &Answer) -> (r: String)
    ensures
        r@ == failure(what@, *a),
{
    let mut out = what.to_owned();
    out.append(" exited with ");
    out.append(a.status.as_str());
    out.append(": ");
    let stderr = lines::trimmed(a.stderr.as_str());
    out.append(stderr.as_str());
    out
}

/// The two texts, one after the other.
pub fn concat(a: &str, b: &str) -> (r: String)
    ensures
        r@ == a@ + b@,
{
    let mut out = a.to_owned();
    out.append(b);
    out
}

// ---------------------------------------------------------------------------------------------
// Commands
// ---------------------------------------------------------------------------------------------

/// The texts that a sequence of string slices holds.
pub open spec fn str_views(v: Seq<&str>) -> Seq<Seq<char>> {
    Seq::new(v.len(), |i: int| v[i]@)
}

/// The arguments of a command.
pub fn command(parts: Vec<&str>) -> (r: Vec<String>)
    ensures
        text::views(r@) == str_views(parts@),
{
    let mut out: Vec<String> = Vec::new();
    let mut i: usize = 0;
    while i < parts.len()
        invariant
            i <= parts@.len(),
            text::views(out@) =~= str_views(parts@).take(i as int),
        decreases parts@.len() - i,
    {
        let ghost before = text::views(out@);
        out.push(parts[i].to_owned());
        assert(text::views(out@) =~= before.push(parts@[i as int]@));
        i = i + 1;
    }
    assert(str_views(parts@).take(i as int) =~= str_views(parts@));
    out
}

/// Arguments with path patterns behind them.
pub open spec fn with_paths(args: Seq<Seq<char>>, paths: Seq<Seq<char>>) -> Seq<Seq<char>> {
    if paths.len() == 0 {
        args
    } else {
        args.push("--"@) + paths
    }
}

/// Arguments with path patterns behind them.
pub fn command_with_paths(parts: Vec<&str>, paths: &Vec<String>) -> (r: Vec<String>)
    ensures
        text::views(r@) == with_paths(str_views(parts@), text::views(paths@)),
{
    let ghost args = str_views(parts@);
    let mut out = command(parts);
    assert(text::views(paths@).len() == paths@.len());
    if paths.len() > 0 {
        out.push("--".to_owned());
        let ghost marked = text::views(out@);
        assert(marked =~= args.push("--"@));
        let mut i: usize = 0;
        while i < paths.len()
            invariant
                i <= paths@.len(),
                text::views(out@) =~= marked + text::views(paths@).take(i as int),
            decreases paths@.len() - i,
        {
            let ghost before = text::views(out@);
            out.push(paths[i].clone());
            assert(text::views(out@) =~= before.push(paths@[i as int]@));
            i = i + 1;
        }
        assert(text::views(paths@).take(i as int) =~= text::views(paths@));
    }
    out
}

} // verus!
