//! What is asked of the AI tool.

use vstd::prelude::*;

verus! {

/// The prompt for diffs, where the user has none of their own.
pub const DEFAULT_DIFF_PROMPT: &'static str =
    "You are an experienced software engineer performing a PR review.

Summarize the following Git diff and commit message in an ultra-compact way.

Rules:
- Maximum 1–6 bullet points
- Focus on the intent and impact of the changes, not a description of what lines were added or removed
- Answer: why was this change made, what problem does it solve, what is the effect on the system?
- Mention affected components and possible breaking changes
- No explanations for beginners
- No introduction or filler text
- Write technically and directly, like a PR review comment

Format:
- <component / area>: <impact or intent of change>
";

/// The prompt for logs, where the user has none of their own.
pub const DEFAULT_LOG_PROMPT: &'static str = DEFAULT_DIFF_PROMPT;

/// The format of the log that goes with a diff.
pub const GIT_LOG_METADATA_FORMAT: &'static str =
    "--pretty=format:commit %h%nRefs: %D%nAuthor: %an <%ae>%nDate: %ci%nSubject: %s%n";

/// The text of the recording dialog, encoded as in a URL.
pub const AUDIO_DIALOG_TEXT: &'static str =
    "A%20Git%20diff%20is%20being%20analyzed%20by%20AI.%0AYour%20recording%20extends%20the%20prompt%20-%20use%20it%20to%20guide%20the%20analysis%3A%0A%0A-%20Focus%20on%20specific%20files%20or%20modules%0A-%20Request%20a%20brief%20summary%20instead%20of%20full%20analysis%0A-%20Ignore%20test%20files%20or%20certain%20areas%0A-%20Ask%20for%20a%20risk%20assessment%20or%20improvement%20suggestions%0A-%20Set%20the%20output%20language%2C%20e.g.%20respond%20in%20German";

/// A prompt that asks for an answer in the language of a locale.
pub open spec fn in_language(prompt: Seq<char>, lang: Seq<char>) -> Seq<char> {
    prompt + "\nRespond in the language of locale: "@ + lang + "."@
}

/// A prompt that is extended by a recording.
pub open spec fn recorded(prompt: Seq<char>) -> Seq<char> {
    prompt
        + "\nThe audio/ogg.attachment is an extension for the prompt It may contain filter instructions or directions — for example, specifying what should or should not be considered in the analysis."@
}

/// The prompt that is handed to the AI tool.
pub open spec fn effective_prompt(base: Seq<char>, lang: Seq<char>, audio: bool) -> Seq<char> {
    if audio {
        recorded(in_language(base, lang))
    } else {
        in_language(base, lang)
    }
}

/// Appends the wish for a language to a prompt.
pub fn with_lang(prompt: &str, lang: &str) -> (r: String)
    ensures
        r@ == in_language(prompt@, lang@),
{
    let mut out = prompt.to_owned();
    out.append("\nRespond in the language of locale: ");
    out.append(lang);
    out.append(".");
    out
}

/// Tells a prompt that a recording extends it.
pub fn with_audio(prompt: &str) -> (r: String)
    ensures
        r@ == recorded(prompt@),
{
    let mut out = prompt.to_owned();
    out.append(
        "\nThe audio/ogg.attachment is an extension for the prompt It may contain filter instructions or directions — for example, specifying what should or should not be considered in the analysis.",
    );
    out
}

/// The prompt that is handed to the AI tool.
pub fn build_prompt(base: &str, lang: &str, audio: bool) -> (r: String)
    ensures
        r@ == effective_prompt(base@, lang@, audio),
{
    let out = with_lang(base, lang);
    if audio {
        with_audio(out.as_str())
    } else {
        out
    }
}

} // verus!
