//! Lists of commits as HTML: what `git log` prints, turned into cards.

use vstd::prelude::*;

use crate::escape;
use crate::escape::html_escape;
use crate::lines;
use crate::lines::{is_blank, split_lines, trimmed, trimmed_end, trimmed_start};
use crate::number;
use crate::number::count_text;
use crate::pages;
use crate::search;
use crate::search::{cut, cut_at_most, has_text, joined};
use crate::template;
use crate::template::fill;
use crate::text;
use crate::text::{push_filled, same_text, without_leading, without_prefix};

verus! {

// ---------------------------------------------------------------------------------------------
// Numbers of files
// ---------------------------------------------------------------------------------------------

/// How many lines that are not blank stand before the next `COMMIT ` line, or the end.
pub open spec fn files_before_commit(ls: Seq<Seq<char>>) -> nat
    decreases ls.len(),
{
    if ls.len() == 0 || text::starts_with(ls[0], "COMMIT "@) {
        0
    } else {
        files_before_commit(ls.drop_first()) + if lines::blank(ls[0]) {
            0nat
        } else {
            1nat
        }
    }
}

/// The commits of a list of files, each with the number of its files. A commit is announced by a
/// `COMMIT ` line with its hash, and its files follow, one on each line.
pub open spec fn counts_in(ls: Seq<Seq<char>>) -> Seq<(Seq<char>, nat)>
    decreases ls.len(),
{
    if ls.len() == 0 {
        seq![]
    } else {
        match text::strip_prefix(ls[0], "COMMIT "@) {
            Some(hash) => seq![(hash, files_before_commit(ls.drop_first()))] + counts_in(
                ls.drop_first(),
            ),
            None => counts_in(ls.drop_first()),
        }
    }
}

/// The number of files of a commit: what was counted last under its hash, or 0.
pub open spec fn count_of(counts: Seq<(Seq<char>, nat)>, hash: Seq<char>) -> nat
    decreases counts.len(),
{
    if counts.len() == 0 {
        0
    } else if counts.last().0 == hash {
        counts.last().1
    } else {
        count_of(counts.drop_last(), hash)
    }
}

/// The numbers of files of commits.
#[derive(Debug)]
pub struct FileCounts {
    /// The last one comes first.
    entries: Vec<(String, usize)>,
}

/// What counted commits hold, the last one first.
pub open spec fn entry_views(v: Seq<(String, usize)>) -> Seq<(Seq<char>, nat)> {
    Seq::new(v.len(), |i: int| (v[v.len() - 1 - i].0@, v[v.len() - 1 - i].1 as nat))
}

impl View for FileCounts {
    type V = Seq<(Seq<char>, nat)>;

    closed spec fn view(&self) -> Seq<(Seq<char>, nat)> {
        entry_views(self.entries@)
    }
}

impl FileCounts {
    /// The number of files of a commit.
    pub fn count(&self, hash: &str) -> (r: usize)
        ensures
            r == count_of(self@, hash@),
    {
        let ghost all = self@;
        let n = self.entries.len();
        let mut i: usize = 0;
        assert(all.take(n as int) =~= all);
        while i < n
            invariant
                n == self.entries@.len(),
                all == entry_views(self.entries@),
                i <= n,
                count_of(all, hash@) == count_of(all.take(n - i), hash@),
            decreases n - i,
        {
            let ghost part = all.take(n - i);
            assert(part.last() == (self.entries@[i as int].0@, self.entries@[i as int].1 as nat));
            assert(part.drop_last() =~= all.take(n - i - 1));
            if same_text(self.entries[i].0.as_str(), hash) {
                return self.entries[i].1;
            }
            i = i + 1;
        }
        0
    }
}

/// Counts the files of each commit in a list of files.
pub fn batch_file_counts(list: &str) -> (r: FileCounts)
    ensures
        r@ == counts_in(lines::lines(list@)),
{
    let all = split_lines(list);
    let ghost ls = lines::lines(list@);
    let n = all.len();
    let mut entries: Vec<(String, usize)> = Vec::new();
    let mut files: usize = 0;
    let mut i: usize = n;
    assert(ls.skip(n as int) =~= seq![]);
    assert(entry_views(entries@) =~= seq![]);
    while i > 0
        invariant
            n == all@.len(),
            text::views(all@) == ls,
            i <= n,
            files <= n - i,
            files == files_before_commit(ls.skip(i as int)),
            entry_views(entries@) == counts_in(ls.skip(i as int)),
        decreases i,
    {
        let ghost before = entry_views(entries@);
        let ghost rest = ls.skip(i - 1);
        assert(rest.drop_first() =~= ls.skip(i as int));
        assert(rest[0] == all@[i - 1]@);
        match without_prefix(all[i - 1].as_str(), "COMMIT ") {
            Some(hash) => {
                let ghost e = (hash@, files as nat);
                entries.push((hash, files));
                assert(entry_views(entries@) =~= seq![e] + before);
                files = 0;
            },
            None => {
                if !is_blank(all[i - 1].as_str()) {
                    files = files + 1;
                }
            },
        }
        i = i - 1;
    }
    assert(ls.skip(0) =~= ls);
    FileCounts { entries }
}

// ---------------------------------------------------------------------------------------------
// Badges
// ---------------------------------------------------------------------------------------------

/// The badge of a ref: HEAD and its branch, a tag, a remote branch or a local one.
pub open spec fn ref_badge(r: Seq<char>) -> Seq<char> {
    let t = lines::trim(r);
    if t.len() == 0 {
        seq![]
    } else {
        match text::strip_prefix(t, "HEAD -> "@) {
            Some(branch) => "<span class=\"ref-head\">HEAD</span><span class=\"ref-branch\">"@
                + escape::html_escaped(branch) + "</span>"@,
            None => match text::strip_prefix(t, "tag: "@) {
                Some(tag) => "<span class=\"ref-tag\">"@ + escape::html_escaped(tag) + "</span>"@,
                None => if search::contains_text(t, "/"@) {
                    "<span class=\"ref-remote\">"@ + escape::html_escaped(t) + "</span>"@
                } else {
                    "<span class=\"ref-branch\">"@ + escape::html_escaped(t) + "</span>"@
                },
            },
        }
    }
}

/// The badges of several refs.
pub open spec fn badge_list(refs: Seq<Seq<char>>) -> Seq<Seq<char>> {
    Seq::new(refs.len(), |i: int| ref_badge(refs[i]))
}

/// The badges of a comma-separated list of refs.
pub open spec fn ref_badges(refs: Seq<char>) -> Seq<char> {
    search::join(text::filled(badge_list(search::split(refs, ", "@))), " "@)
}

/// The badge of a ref.
pub fn render_ref_badge(r: &str) -> (out: String)
    ensures
        out@ == ref_badge(r@),
{
    let t = trimmed(r);
    if t.as_str().is_empty() {
        return String::new();
    }
    match without_prefix(t.as_str(), "HEAD -> ") {
        Some(branch) => {
            return wrap(
                "<span class=\"ref-head\">HEAD</span><span class=\"ref-branch\">",
                branch.as_str(),
            );
        },
        None => {},
    }
    match without_prefix(t.as_str(), "tag: ") {
        Some(tag) => {
            return wrap("<span class=\"ref-tag\">", tag.as_str());
        },
        None => {},
    }
    if has_text(t.as_str(), "/") {
        wrap("<span class=\"ref-remote\">", t.as_str())
    } else {
        wrap("<span class=\"ref-branch\">", t.as_str())
    }
}

/// A text, escaped, in a `span` that `open` begins.
fn wrap(open: &str, s: &str) -> (r: String)
    ensures
        r@ == open@ + escape::html_escaped(s@) + "</span>"@,
{
    let mut out = open.to_owned();
    let escaped = html_escape(s);
    out.append(escaped.as_str());
    out.append("</span>");
    out
}

/// The badges of a comma-separated list of refs.
pub fn render_ref_badges(refs_str: &str) -> (r: String)
    ensures
        r@ == ref_badges(refs_str@),
{
    proof {
        reveal_strlit(", ");
    }
    let refs = cut(refs_str, ", ");
    let ghost list = badge_list(search::split(refs_str@, ", "@));
    let mut out: Vec<String> = Vec::new();
    let mut i: usize = 0;
    assert(text::views(out@) =~= seq![]);
    assert(list.take(0) =~= seq![]);
    while i < refs.len()
        invariant
            text::views(refs@) == search::split(refs_str@, ", "@),
            list == badge_list(search::split(refs_str@, ", "@)),
            i <= refs@.len(),
            text::views(out@) == text::filled(list.take(i as int)),
        decreases refs@.len() - i,
    {
        let badge = render_ref_badge(refs[i].as_str());
        assert(text::views(refs@)[i as int] == refs@[i as int]@);
        assert(list.take(i as int).push(badge@) =~= list.take(i + 1));
        push_filled(&mut out, badge, Ghost(list.take(i as int)));
        i = i + 1;
    }
    assert(refs@.len() == list.len());
    assert(list.take(i as int) =~= list);
    joined(&out, " ")
}

// ---------------------------------------------------------------------------------------------
// Cards
// ---------------------------------------------------------------------------------------------

/// The lines behind the first blank one.
pub open spec fn after_blank(ls: Seq<Seq<char>>) -> Seq<Seq<char>>
    decreases ls.len(),
{
    if ls.len() == 0 {
        seq![]
    } else if lines::blank(ls[0]) {
        ls.drop_first()
    } else {
        after_blank(ls.drop_first())
    }
}

/// The lines from the first one on that is not empty.
pub open spec fn from_text(ls: Seq<Seq<char>>) -> Seq<Seq<char>>
    decreases ls.len(),
{
    if ls.len() == 0 || ls[0].len() > 0 {
        ls
    } else {
        from_text(ls.drop_first())
    }
}

/// The lines up to the last one that is not blank.
pub open spec fn without_blank_end(ls: Seq<Seq<char>>) -> Seq<Seq<char>>
    decreases ls.len(),
{
    if ls.len() > 0 && lines::blank(ls.last()) {
        without_blank_end(ls.drop_last())
    } else {
        ls
    }
}

/// The subject in the text of a commit.
pub open spec fn subject_of(message: Seq<Seq<char>>) -> Seq<char> {
    if from_text(message).len() == 0 {
        seq![]
    } else {
        from_text(message)[0]
    }
}

/// The body in the text of a commit.
pub open spec fn body_of(message: Seq<Seq<char>>) -> Seq<Seq<char>> {
    if from_text(message).len() == 0 {
        seq![]
    } else {
        without_blank_end(from_text(message).drop_first())
    }
}

/// Part `i` of a list, or nothing where it has fewer.
pub open spec fn part(parts: Seq<Seq<char>>, i: int) -> Seq<char> {
    if i < parts.len() {
        parts[i]
    } else {
        seq![]
    }
}

/// The badge with the number of files.
pub open spec fn file_badge(n: nat) -> Seq<char> {
    if n == 1 {
        " <span class=\"file-count\">1 file</span>"@
    } else {
        " <span class=\"file-count\">"@ + number::decimal(n) + " files</span>"@
    }
}

/// The body of a commit, on a card.
pub open spec fn body_html(body: Seq<Seq<char>>) -> Seq<char> {
    if body.len() == 0 {
        seq![]
    } else {
        "\n  <div class=\"body\">"@ + escape::html_escaped(search::join(body, "\n"@)) + "</div>"@
    }
}

/// Badges with space round them, if there are any.
pub open spec fn spaced(badges: Seq<char>) -> Seq<char> {
    if badges.len() == 0 {
        seq![]
    } else {
        " "@ + badges + " "@
    }
}

/// The fields of a header: hash, author, age and refs, of which the last ones may be missing.
/// White space at its end is dropped only after the header has been split, so that the last field
/// of a commit without refs is empty.
pub open spec fn header_parts(header: Seq<char>) -> Seq<Seq<char>> {
    let parts = search::split_at_most(lines::trim_start(header), 4, ", "@);
    parts.update(parts.len() - 1, lines::trim_end(parts.last()))
}

/// The card of a commit. Its entry begins with a line that gives hash, author, age and refs; a
/// blank line, the subject and the body follow. An entry without such a line has no card.
pub open spec fn commit_card(counts: Seq<(Seq<char>, nat)>, entry: Seq<char>) -> Option<Seq<char>> {
    let ls = lines::lines(entry);
    if ls.len() == 0 || lines::blank(ls[0]) {
        None
    } else {
        let parts = header_parts(ls[0]);
        let message = after_blank(ls.drop_first());
        let hash = escape::html_escaped(part(parts, 0));
        Some(
            template::expand(
                pages::COMMIT_CARD@,
                seq![
                    ("hash_raw"@, hash),
                    ("hash"@, hash),
                    ("refs"@, spaced(ref_badges(part(parts, 3)))),
                    ("author"@, escape::html_escaped(part(parts, 1))),
                    ("time"@, escape::html_escaped(part(parts, 2))),
                    ("file_badge"@, file_badge(count_of(counts, part(parts, 0)))),
                    ("subject"@, escape::html_escaped(subject_of(message))),
                    ("body"@, body_html(body_of(message))),
                ],
            ),
        )
    }
}

/// The cards of the given entries, and how many they are.
pub open spec fn cards_of(counts: Seq<(Seq<char>, nat)>, entries: Seq<Seq<char>>) -> (
    Seq<char>,
    nat,
)
    decreases entries.len(),
{
    if entries.len() == 0 {
        (seq![], 0)
    } else {
        let before = cards_of(counts, entries.drop_last());
        match commit_card(counts, entries.last()) {
            Some(card) => (before.0 + card, before.1 + 1),
            None => before,
        }
    }
}

/// The entries of a log, each of which begins with `### `.
pub open spec fn log_entries(log: Seq<char>) -> Seq<Seq<char>> {
    search::split(text::trim_start_matches(log, "### "@), "\n### "@)
}

/// The cards of a log. One without commits says so.
pub open spec fn log_cards(counts: Seq<(Seq<char>, nat)>, log: Seq<char>) -> (Seq<char>, nat) {
    let cards = cards_of(counts, log_entries(log));
    if cards.1 == 0 {
        (cards.0 + "<p class=\"empty\">No commits found in this range.</p>"@, 0)
    } else {
        cards
    }
}

/// How many commits there are, in words.
pub open spec fn count_label(n: nat) -> Seq<char> {
    if n == 1 {
        "1 commit"@
    } else {
        number::decimal(n) + " commits"@
    }
}

/// How many commits there are, in words.
pub fn write_count_label(n: usize) -> (r: String)
    ensures
        r@ == count_label(n as nat),
{
    if n == 1 {
        "1 commit".to_owned()
    } else {
        let mut out = count_text(n);
        out.append(" commits");
        out
    }
}

/// The text of a commit: the lines of its entry behind the first blank one, that of the header
/// not counted.
fn find_message(all: &Vec<String>) -> (r: usize)
    requires
        all@.len() > 0,
    ensures
        1 <= r <= all@.len(),
        text::views(all@).skip(r as int) == after_blank(text::views(all@).drop_first()),
{
    let ghost ls = text::views(all@);
    let n = all.len();
    let mut i: usize = 1;
    assert(ls.drop_first() =~= ls.skip(1));
    while i < n
        invariant
            n == all@.len(),
            ls == text::views(all@),
            1 <= i <= n,
            after_blank(ls.drop_first()) == after_blank(ls.skip(i as int)),
        decreases n - i,
    {
        assert(ls.skip(i as int)[0] == all@[i as int]@);
        assert(ls.skip(i as int).drop_first() =~= ls.skip(i + 1));
        if is_blank(all[i].as_str()) {
            return i + 1;
        }
        i = i + 1;
    }
    assert(ls.skip(n as int) =~= seq![]);
    n
}

/// The first line from `from` on that is not empty.
fn find_text(all: &Vec<String>, from: usize) -> (r: usize)
    requires
        from <= all@.len(),
    ensures
        from <= r <= all@.len(),
        text::views(all@).skip(r as int) == from_text(text::views(all@).skip(from as int)),
{
    let ghost ls = text::views(all@);
    let n = all.len();
    let mut i: usize = from;
    while i < n && all[i].as_str().is_empty()
        invariant
            n == all@.len(),
            ls == text::views(all@),
            from <= i <= n,
            from_text(ls.skip(from as int)) == from_text(ls.skip(i as int)),
        decreases n - i,
    {
        assert(ls.skip(i as int)[0] == all@[i as int]@);
        assert(ls.skip(i as int).drop_first() =~= ls.skip(i + 1));
        i = i + 1;
    }
    if i < n {
        assert(ls.skip(i as int)[0] == all@[i as int]@);
    }
    i
}

/// The lines from `from` on, up to the last one that is not blank.
fn body_lines(all: &Vec<String>, from: usize) -> (r: Vec<String>)
    requires
        from <= all@.len(),
    ensures
        text::views(r@) == without_blank_end(text::views(all@).skip(from as int)),
{
    let ghost ls = text::views(all@);
    let mut end: usize = all.len();
    assert(ls.subrange(from as int, end as int) =~= ls.skip(from as int));
    while end > from && is_blank(all[end - 1].as_str())
        invariant
            ls == text::views(all@),
            from <= end <= all@.len(),
            without_blank_end(ls.skip(from as int)) == without_blank_end(
                ls.subrange(from as int, end as int),
            ),
        decreases end,
    {
        let ghost now = ls.subrange(from as int, end as int);
        assert(now.last() == all@[end - 1]@);
        assert(now.drop_last() =~= ls.subrange(from as int, end - 1));
        end = end - 1;
    }
    let ghost body = ls.subrange(from as int, end as int);
    if end > from {
        assert(body.last() == all@[end - 1]@);
    }
    let mut out: Vec<String> = Vec::new();
    let mut i: usize = from;
    while i < end
        invariant
            ls == text::views(all@),
            from <= i <= end <= all@.len(),
            text::views(out@) =~= ls.subrange(from as int, i as int),
        decreases end - i,
    {
        let ghost before = text::views(out@);
        out.push(all[i].clone());
        assert(text::views(out@) =~= before.push(all@[i as int]@));
        i = i + 1;
    }
    out
}

/// Part `i` of a list, or nothing where it has fewer.
fn get_part(parts: &Vec<String>, i: usize) -> (r: String)
    ensures
        r@ == part(text::views(parts@), i as int),
{
    if i < parts.len() {
        parts[i].clone()
    } else {
        String::new()
    }
}

/// The badge with the number of files.
fn write_file_badge(n: usize) -> (r: String)
    ensures
        r@ == file_badge(n as nat),
{
    if n == 1 {
        " <span class=\"file-count\">1 file</span>".to_owned()
    } else {
        let mut out = " <span class=\"file-count\">".to_owned();
        let count = count_text(n);
        out.append(count.as_str());
        out.append(" files</span>");
        out
    }
}

/// The body of a commit, on a card.
fn write_body_html(body: &Vec<String>) -> (r: String)
    ensures
        r@ == body_html(text::views(body@)),
{
    if body.len() == 0 {
        String::new()
    } else {
        let mut out = "\n  <div class=\"body\">".to_owned();
        let whole = joined(body, "\n");
        let escaped = html_escape(whole.as_str());
        out.append(escaped.as_str());
        out.append("</div>");
        out
    }
}

/// Badges with space round them, if there are any.
fn write_spaced(badges: &str) -> (r: String)
    ensures
        r@ == spaced(badges@),
{
    if badges.is_empty() {
        String::new()
    } else {
        let mut out = " ".to_owned();
        out.append(badges);
        out.append(" ");
        out
    }
}

/// The fields of a header.
fn split_header(header: &str) -> (r: Vec<String>)
    ensures
        text::views(r@) == header_parts(header@),
{
    proof {
        reveal_strlit(", ");
    }
    let front = trimmed_start(header);
    let mut parts = cut_at_most(front.as_str(), 4, ", ");
    let ghost before = text::views(parts@);
    let n = parts.len();
    assert(n == before.len());
    if n > 0 {
        assert(before.last() == parts@[n - 1]@);
        let last = trimmed_end(parts[n - 1].as_str());
        let ghost v = last@;
        parts.set(n - 1, last);
        assert(text::views(parts@) =~= before.update(n - 1, v));
    }
    parts
}

/// The card of a commit.
fn render_commit_card(counts: &FileCounts, entry: &str) -> (r: Option<String>)
    ensures
        text::opt_view(r) == commit_card(counts@, entry@),
{
    let all = split_lines(entry);
    let ghost ls = lines::lines(entry@);
    assert(all@.len() == text::views(all@).len());
    if all.len() == 0 {
        return None;
    }
    assert(ls[0] == all@[0]@);
    if is_blank(all[0].as_str()) {
        return None;
    }
    let parts = split_header(all[0].as_str());
    let start = find_message(&all);
    let at = find_text(&all, start);
    let ghost message = after_blank(ls.drop_first());
    let subject = if at < all.len() {
        assert(ls.skip(at as int)[0] == all@[at as int]@);
        all[at].clone()
    } else {
        String::new()
    };
    let body = if at < all.len() {
        assert(ls.skip(at as int).drop_first() =~= ls.skip(at + 1));
        body_lines(&all, at + 1)
    } else {
        let none: Vec<String> = Vec::new();
        assert(text::views(none@) =~= seq![]);
        none
    };
    assert(subject@ =~= subject_of(message));
    assert(text::views(body@) == body_of(message));
    let raw_hash = get_part(&parts, 0);
    let hash = html_escape(raw_hash.as_str());
    let raw_author = get_part(&parts, 1);
    let author = html_escape(raw_author.as_str());
    let raw_time = get_part(&parts, 2);
    let time = html_escape(raw_time.as_str());
    let refs_str = get_part(&parts, 3);
    let badges = render_ref_badges(refs_str.as_str());
    let refs = write_spaced(badges.as_str());
    let files = write_file_badge(counts.count(raw_hash.as_str()));
    let subject = html_escape(subject.as_str());
    let body = write_body_html(&body);
    let b: Vec<(&str, &str)> = vec![
        ("hash_raw", hash.as_str()),
        ("hash", hash.as_str()),
        ("refs", refs.as_str()),
        ("author", author.as_str()),
        ("time", time.as_str()),
        ("file_badge", files.as_str()),
        ("subject", subject.as_str()),
        ("body", body.as_str()),
    ];
    assert(template::binding_views(b@) =~= seq![
        ("hash_raw"@, hash@),
        ("hash"@, hash@),
        ("refs"@, refs@),
        ("author"@, author@),
        ("time"@, time@),
        ("file_badge"@, files@),
        ("subject"@, subject@),
        ("body"@, body@),
    ]);
    Some(fill(pages::COMMIT_CARD, &b))
}

/// The cards of a log, and how many they are.
pub fn render_commit_cards(file_counts: &FileCounts, log_text: &str) -> (r: (String, usize))
    ensures
        (r.0@, r.1 as nat) == log_cards(file_counts@, log_text@),
{
    proof {
        reveal_strlit("\n### ");
    }
    let stripped = without_leading(log_text, "### ");
    let entries = cut(stripped.as_str(), "\n### ");
    let ghost es = log_entries(log_text@);
    let mut cards = String::new();
    let mut count: usize = 0;
    let mut i: usize = 0;
    assert(es.take(0) =~= seq![]);
    assert(cards@ =~= seq![]);
    while i < entries.len()
        invariant
            text::views(entries@) == es,
            i <= entries@.len(),
            count <= i,
            (cards@, count as nat) == cards_of(file_counts@, es.take(i as int)),
        decreases entries@.len() - i,
    {
        assert(es.take(i + 1).drop_last() =~= es.take(i as int));
        assert(es.take(i + 1).last() == entries@[i as int]@);
        match render_commit_card(file_counts, entries[i].as_str()) {
            Some(card) => {
                cards.append(card.as_str());
                count = count + 1;
            },
            None => {},
        }
        i = i + 1;
    }
    assert(entries@.len() == es.len());
    assert(es.take(i as int) =~= es);
    if count == 0 {
        cards.append("<p class=\"empty\">No commits found in this range.</p>");
    }
    (cards, count)
}

/// The fields of a header are those that it was put together of, where hash, author and age hold
/// no comma. In particular the age stands alone whether or not there are refs.
pub proof fn law_header_is_split_into_its_fields(
    hash: Seq<char>,
    author: Seq<char>,
    age: Seq<char>,
    refs: Seq<char>,
)
    requires
        !hash.contains(','),
        !author.contains(','),
        !age.contains(','),
        hash.len() > 0 ==> !lines::white_space(hash[0]),
    ensures
        header_parts(hash + ", "@ + author + ", "@ + age + ", "@ + refs) == seq![
            hash,
            author,
            age,
            lines::trim_end(refs),
        ],
{
    reveal_strlit(", ");
    let sep = ", "@;
    let c = refs;
    let b = age + sep + c;
    let a = author + sep + b;
    let whole = hash + sep + a;
    assert(hash + sep + author + sep + age + sep + refs =~= whole);
    if hash.len() == 0 {
        assert(whole[0] == ',');
    } else {
        assert(whole[0] == hash[0]);
    }
    assert(lines::trim_start(whole) == whole);
    lemma_find_field(hash, a);
    lemma_find_field(author, b);
    lemma_find_field(age, c);
    reveal_with_fuel(search::split_at_most, 5);
    assert(search::split_at_most(c, 1, sep) == seq![c]);
    assert(search::split_at_most(b, 2, sep) =~= seq![age, c]);
    assert(search::split_at_most(a, 3, sep) =~= seq![author, age, c]);
    assert(search::split_at_most(whole, 4, sep) =~= seq![hash, author, age, c]);
    assert(header_parts(whole) =~= seq![hash, author, age, lines::trim_end(c)]);
}

/// A separator is found behind a field without commas.
proof fn lemma_find_field(field: Seq<char>, rest: Seq<char>)
    requires
        !field.contains(','),
    ensures
        search::find(field + ", "@ + rest, ", "@) == Some(field.len() as int),
        (field + ", "@ + rest).take(field.len() as int) == field,
        (field + ", "@ + rest).skip(field.len() as int + ", "@.len()) == rest,
{
    reveal_strlit(", ");
    let sep = ", "@;
    let s = field + sep + rest;
    let n = field.len() as int;
    search::lemma_find_from(s, sep, 0);
    assert(s.subrange(n, n + sep.len()) =~= sep);
    assert(text::occurs_at(s, sep, n));
    assert forall|i: int| 0 <= i < n implies !text::occurs_at(s, sep, i) by {
        if text::occurs_at(s, sep, i) {
            assert(s.subrange(i, i + sep.len())[0] == s[i]);
            assert(field[i] == ',');
        }
    }
    assert(s.take(n) =~= field);
    assert(s.skip(n + sep.len()) =~= rest);
}

/// The cards of a log stand in the order of its entries: those of one list of entries come before
/// those of the next, and they are counted together.
pub proof fn law_cards_keep_the_order(
    counts: Seq<(Seq<char>, nat)>,
    first: Seq<Seq<char>>,
    second: Seq<Seq<char>>,
)
    ensures
        cards_of(counts, first + second).0 == cards_of(counts, first).0 + cards_of(counts, second).0,
        cards_of(counts, first + second).1 == cards_of(counts, first).1 + cards_of(counts, second).1,
    decreases second.len(),
{
    if second.len() == 0 {
        assert(first + second =~= first);
        assert(cards_of(counts, first).0 + Seq::<char>::empty() =~= cards_of(counts, first).0);
    } else {
        let rest = second.drop_last();
        assert((first + second).drop_last() =~= first + rest);
        assert((first + second).last() == second.last());
        law_cards_keep_the_order(counts, first, rest);
        match commit_card(counts, second.last()) {
            Some(card) => {
                assert(cards_of(counts, first).0 + cards_of(counts, rest).0 + card
                    =~= cards_of(counts, first).0 + (cards_of(counts, rest).0 + card));
            },
            None => {},
        }
    }
}

/// An entry has a card if and only if its first line says anything, and then it counts as one.
pub proof fn law_entry_with_a_header_has_a_card(counts: Seq<(Seq<char>, nat)>, entry: Seq<char>)
    ensures
        cards_of(counts, seq![entry]).1 == if lines::lines(entry).len() > 0 && lines::trim(
            lines::lines(entry)[0],
        ).len() > 0 {
            1nat
        } else {
            0nat
        },
        cards_of(counts, seq![entry]).1 == 0 ==> cards_of(counts, seq![entry]).0.len() == 0,
{
    let one = seq![entry];
    assert(one.drop_last() =~= seq![]);
    assert(one.last() == entry);
    assert(cards_of(counts, one.drop_last()) == (Seq::<char>::empty(), 0nat));
}

/// How many lines of a list are not blank.
pub open spec fn filled_lines(ls: Seq<Seq<char>>) -> nat
    decreases ls.len(),
{
    if ls.len() == 0 {
        0
    } else {
        filled_lines(ls.drop_first()) + if lines::blank(ls[0]) {
            0nat
        } else {
            1nat
        }
    }
}

/// The lines that follow the last announcement of a commit, up to that of another one or the end,
/// are its files, blank lines apart.
pub proof fn law_files_follow_their_commit(
    before: Seq<Seq<char>>,
    hash: Seq<char>,
    files: Seq<Seq<char>>,
    after: Seq<Seq<char>>,
)
    requires
        forall|i: int|
            0 <= i < files.len() ==> !text::starts_with(#[trigger] files[i], "COMMIT "@),
        after.len() > 0 ==> text::starts_with(after[0], "COMMIT "@),
        forall|i: int| 0 <= i < after.len() ==> (#[trigger] after[i]) != "COMMIT "@ + hash,
    ensures
        count_of(counts_in(before + (seq!["COMMIT "@ + hash] + (files + after))), hash)
            == filled_lines(files),
{
    let line = "COMMIT "@ + hash;
    let tail = files + after;
    let list = seq![line] + tail;
    assert(line.take("COMMIT "@.len() as int) =~= "COMMIT "@);
    assert(line.skip("COMMIT "@.len() as int) =~= hash);
    assert(list.drop_first() =~= tail);
    lemma_files_before(files, after);
    lemma_counts_skip(files, after);
    let own = seq![(hash, filled_lines(files))];
    assert(list[0] == line);
    assert(counts_in(list) == own + counts_in(after));
    lemma_counts_without(after, hash);
    lemma_count_last(own, counts_in(after), hash);
    assert(own.drop_last() =~= seq![]);
    assert(count_of(own, hash) == filled_lines(files));
    let earlier = lemma_counts_suffix(before, list);
    assert(counts_in(list)[0].0 == hash);
    lemma_count_suffix(earlier, counts_in(list), hash);
}

proof fn lemma_files_before(files: Seq<Seq<char>>, after: Seq<Seq<char>>)
    requires
        forall|i: int|
            0 <= i < files.len() ==> !text::starts_with(#[trigger] files[i], "COMMIT "@),
        after.len() > 0 ==> text::starts_with(after[0], "COMMIT "@),
    ensures
        files_before_commit(files + after) == filled_lines(files),
    decreases files.len(),
{
    if files.len() > 0 {
        let rest = files.drop_first();
        assert(forall|i: int| 0 <= i < rest.len() ==> rest[i] == files[i + 1]);
        assert((files + after).drop_first() =~= rest + after);
        assert((files + after)[0] == files[0]);
        lemma_files_before(rest, after);
    } else {
        assert(files + after =~= after);
    }
}

proof fn lemma_counts_skip(files: Seq<Seq<char>>, after: Seq<Seq<char>>)
    requires
        forall|i: int|
            0 <= i < files.len() ==> !text::starts_with(#[trigger] files[i], "COMMIT "@),
    ensures
        counts_in(files + after) == counts_in(after),
    decreases files.len(),
{
    if files.len() > 0 {
        let rest = files.drop_first();
        assert(forall|i: int| 0 <= i < rest.len() ==> rest[i] == files[i + 1]);
        assert((files + after).drop_first() =~= rest + after);
        assert((files + after)[0] == files[0]);
        lemma_counts_skip(rest, after);
    } else {
        assert(files + after =~= after);
    }
}

proof fn lemma_counts_without(after: Seq<Seq<char>>, hash: Seq<char>)
    requires
        forall|i: int| 0 <= i < after.len() ==> (#[trigger] after[i]) != "COMMIT "@ + hash,
    ensures
        forall|i: int|
            0 <= i < counts_in(after).len() ==> (#[trigger] counts_in(after)[i]).0 != hash,
    decreases after.len(),
{
    if after.len() > 0 {
        let rest = after.drop_first();
        assert(forall|i: int| 0 <= i < rest.len() ==> rest[i] == after[i + 1]);
        lemma_counts_without(rest, hash);
        match text::strip_prefix(after[0], "COMMIT "@) {
            Some(h) => {
                assert(after[0] =~= "COMMIT "@ + h);
                let all = counts_in(after);
                assert forall|i: int| 0 <= i < all.len() implies (#[trigger] all[i]).0 != hash by {
                    if i > 0 {
                        assert(all[i] == counts_in(rest)[i - 1]);
                    }
                }
            },
            None => {},
        }
    }
}

proof fn lemma_count_last(
    own: Seq<(Seq<char>, nat)>,
    more: Seq<(Seq<char>, nat)>,
    hash: Seq<char>,
)
    requires
        forall|i: int| 0 <= i < more.len() ==> (#[trigger] more[i]).0 != hash,
    ensures
        count_of(own + more, hash) == count_of(own, hash),
    decreases more.len(),
{
    if more.len() > 0 {
        let rest = more.drop_last();
        assert((own + more).drop_last() =~= own + rest);
        assert((own + more).last() == more[more.len() - 1]);
        assert(forall|i: int| 0 <= i < rest.len() ==> rest[i] == more[i]);
        lemma_count_last(own, rest, hash);
    } else {
        assert(own + more =~= own);
    }
}

/// What is counted in the lines before does not change what is counted in the lines behind.
proof fn lemma_counts_suffix(before: Seq<Seq<char>>, list: Seq<Seq<char>>) -> (earlier: Seq<
    (Seq<char>, nat),
>)
    ensures
        counts_in(before + list) == earlier + counts_in(list),
    decreases before.len(),
{
    if before.len() == 0 {
        assert(before + list =~= list);
        assert(Seq::<(Seq<char>, nat)>::empty() + counts_in(list) =~= counts_in(list));
        Seq::empty()
    } else {
        let rest = before.drop_first();
        assert((before + list).drop_first() =~= rest + list);
        assert((before + list)[0] == before[0]);
        let tail = lemma_counts_suffix(rest, list);
        match text::strip_prefix(before[0], "COMMIT "@) {
            Some(h) => {
                let one = seq![(h, files_before_commit(rest + list))];
                assert(one + (tail + counts_in(list)) =~= (one + tail) + counts_in(list));
                one + tail
            },
            None => tail,
        }
    }
}

proof fn lemma_count_suffix(
    earlier: Seq<(Seq<char>, nat)>,
    list: Seq<(Seq<char>, nat)>,
    hash: Seq<char>,
)
    requires
        exists|i: int| 0 <= i < list.len() && (#[trigger] list[i]).0 == hash,
    ensures
        count_of(earlier + list, hash) == count_of(list, hash),
    decreases list.len(),
{
    let rest = list.drop_last();
    assert((earlier + list).drop_last() =~= earlier + rest);
    assert((earlier + list).last() == list.last());
    if list.last().0 != hash {
        let i = choose|i: int| 0 <= i < list.len() && (#[trigger] list[i]).0 == hash;
        assert(rest[i].0 == hash);
        lemma_count_suffix(earlier, rest, hash);
    }
}

/// The subject of a message is its first line that is not empty, and the lines behind it, up to the
/// last one that is not blank, are the body.
pub proof fn law_message_has_subject_and_body(message: Seq<Seq<char>>, i: int)
    requires
        0 <= i < message.len(),
        message[i].len() > 0,
        forall|j: int| 0 <= j < i ==> (#[trigger] message[j]).len() == 0,
    ensures
        subject_of(message) == message[i],
        body_of(message).len() <= message.len() - i - 1,
        body_of(message) == message.subrange(i + 1, i + 1 + body_of(message).len()),
        forall|k: int|
            i + 1 + body_of(message).len() <= k < message.len() ==> lines::blank(
                #[trigger] message[k],
            ),
        body_of(message).len() > 0 ==> !lines::blank(body_of(message).last()),
{
    lemma_from_text(message, i);
    let rest = from_text(message).drop_first();
    assert(rest =~= message.skip(i + 1));
    lemma_blank_end(rest);
    let body = without_blank_end(rest);
    assert(body =~= message.subrange(i + 1, i + 1 + body.len()));
    assert forall|k: int| i + 1 + body.len() <= k < message.len() implies lines::blank(
        #[trigger] message[k],
    ) by {
        assert(rest[k - i - 1] == message[k]);
    }
}

proof fn lemma_from_text(ls: Seq<Seq<char>>, i: int)
    requires
        0 <= i < ls.len(),
        ls[i].len() > 0,
        forall|j: int| 0 <= j < i ==> (#[trigger] ls[j]).len() == 0,
    ensures
        from_text(ls) == ls.skip(i),
    decreases i,
{
    if i > 0 {
        let rest = ls.drop_first();
        assert(forall|j: int| 0 <= j < rest.len() ==> rest[j] == ls[j + 1]);
        assert(ls[0].len() == 0);
        lemma_from_text(rest, i - 1);
        assert(rest.skip(i - 1) =~= ls.skip(i));
    } else {
        assert(ls.skip(0) =~= ls);
    }
}

proof fn lemma_blank_end(ls: Seq<Seq<char>>)
    ensures
        without_blank_end(ls).len() <= ls.len(),
        without_blank_end(ls) == ls.take(without_blank_end(ls).len() as int),
        forall|k: int|
            without_blank_end(ls).len() <= k < ls.len() ==> lines::blank(#[trigger] ls[k]),
        without_blank_end(ls).len() > 0 ==> !lines::blank(without_blank_end(ls).last()),
    decreases ls.len(),
{
    if ls.len() > 0 && lines::blank(ls.last()) {
        let rest = ls.drop_last();
        lemma_blank_end(rest);
        let r = without_blank_end(rest);
        assert(rest.take(r.len() as int) =~= ls.take(r.len() as int));
        assert forall|k: int| r.len() <= k < ls.len() implies lines::blank(#[trigger] ls[k]) by {
            if k < rest.len() {
                assert(rest[k] == ls[k]);
            }
        }
    } else {
        assert(ls.take(ls.len() as int) =~= ls);
    }
}

} // verus!
