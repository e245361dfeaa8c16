//! What the places of the pages are filled with.

use vstd::prelude::*;

use crate::cards;
use crate::diff_page;
use crate::diff_page::DiffView;
use crate::dot_laws;
use crate::escape;
use crate::html_page;
use crate::lines;
use crate::number;
use crate::pages;
use crate::palette;
use crate::palette::Palette;
use crate::search;
use crate::template;
use crate::text;
use crate::theme::Theme;

verus! {

/// The first binding of a name gives its value.
proof fn lemma_value(bindings: Seq<(Seq<char>, Seq<char>)>, i: int, name: Seq<char>)
    requires
        0 <= i < bindings.len(),
        bindings[i].0 == name,
        forall|j: int| 0 <= j < i ==> (#[trigger] bindings[j]).0 != name,
    ensures
        template::value_of(bindings, name) == bindings[i].1,
    decreases bindings.len(),
{
    if i > 0 {
        let rest = bindings.drop_first();
        assert(forall|j: int| 0 <= j < rest.len() ==> rest[j] == bindings[j + 1]);
        assert(bindings[0].0 != name);
        lemma_value(rest, i - 1, name);
    }
}

/// Whether a name is none of those of the colors, which a glance at its length and its first
/// characters tells.
spec fn is_no_color(name: Seq<char>) -> bool {
    ||| name.len() == 9
    ||| name.len() == 12
    ||| name.len() == 15
    ||| (name.len() == 2 && name[0] != 'b')
    ||| (name.len() == 3 && name[0] == 'c')
    ||| (name.len() == 4 && name[0] == 's')
    ||| (name.len() == 5 && name[0] == 'c')
    ||| (name.len() == 11 && (name[0] == 'f' || name[1] == 'o'))
}

#[verifier::rlimit(40)]
proof fn lemma_colors(p: Palette, name: Seq<char>)
    requires
        is_no_color(name),
    ensures
        html_page::color_bindings(p).len() == 23,
        forall|j: int| 0 <= j < 23 ==> (#[trigger] html_page::color_bindings(p)[j]).0 != name,
        template::value_of(html_page::color_bindings(p), "bg"@) == p.bg@,
{
    reveal_strlit("bg");
    reveal_strlit("card_bg");
    reveal_strlit("card_border");
    reveal_strlit("card_hover");
    reveal_strlit("text");
    reveal_strlit("sub");
    reveal_strlit("dim");
    reveal_strlit("h1_col");
    reveal_strlit("sha_bg");
    reveal_strlit("sha_fg");
    reveal_strlit("hash_bg");
    reveal_strlit("hash_fg");
    reveal_strlit("rh_bg");
    reveal_strlit("rh_fg");
    reveal_strlit("rb_bg");
    reveal_strlit("rb_fg");
    reveal_strlit("rr_bg");
    reveal_strlit("rr_fg");
    reveal_strlit("rt_bg");
    reveal_strlit("rt_fg");
    reveal_strlit("section_border");
    reveal_strlit("code_bg");
    reveal_strlit("blockquote_border");
    let b = html_page::color_bindings(p);
    assert(b[0].0.len() == 2 && b[0].0[0] == 'b');
    assert(b[1].0.len() == 7);
    assert(b[2].0.len() == 11 && b[2].0[0] == 'c' && b[2].0[1] == 'a');
    assert(b[3].0.len() == 10);
    assert(b[4].0.len() == 4 && b[4].0[0] == 't');
    assert(b[5].0.len() == 3 && b[5].0[0] == 's');
    assert(b[6].0.len() == 3 && b[6].0[0] == 'd');
    assert(b[7].0.len() == 6);
    assert(b[8].0.len() == 6);
    assert(b[9].0.len() == 6);
    assert(b[10].0.len() == 7);
    assert(b[11].0.len() == 7);
    assert(b[12].0.len() == 5 && b[12].0[0] == 'r');
    assert(b[13].0.len() == 5 && b[13].0[0] == 'r');
    assert(b[14].0.len() == 5 && b[14].0[0] == 'r');
    assert(b[15].0.len() == 5 && b[15].0[0] == 'r');
    assert(b[16].0.len() == 5 && b[16].0[0] == 'r');
    assert(b[17].0.len() == 5 && b[17].0[0] == 'r');
    assert(b[18].0.len() == 5 && b[18].0[0] == 'r');
    assert(b[19].0.len() == 5 && b[19].0[0] == 'r');
    assert(b[20].0.len() == 14);
    assert(b[21].0.len() == 7);
    assert(b[22].0.len() == 17);
}

/// The bindings of a page: the colors, and behind them its own.
proof fn lemma_own(p: Palette, own: Seq<(Seq<char>, Seq<char>)>, i: int)
    requires
        0 <= i < own.len(),
        is_no_color(own[i].0),
        forall|j: int| 0 <= j < i ==> (#[trigger] own[j]).0 != own[i].0,
    ensures
        template::value_of(html_page::color_bindings(p) + own, own[i].0) == own[i].1,
        template::value_of(html_page::color_bindings(p) + own, "bg"@) == p.bg@,
{
    let colors = html_page::color_bindings(p);
    lemma_colors(p, own[i].0);
    let all = colors + own;
    assert(all[23 + i] == own[i]);
    assert forall|j: int| 0 <= j < 23 + i implies (#[trigger] all[j]).0 != own[i].0 by {
        if j < 23 {
            assert(all[j] == colors[j]);
        } else {
            assert(all[j] == own[j - 23]);
        }
    }
    lemma_value(all, 23 + i, own[i].0);
    assert(all[0] == ("bg"@, p.bg@));
    lemma_value(all, 0, "bg"@);
}

proof fn lemma_names()
    ensures
        is_no_color("css"@),
        is_no_color("js"@),
        is_no_color("s1"@),
        is_no_color("s2"@),
        is_no_color("diff_json"@),
        is_no_color("filter_json"@),
        is_no_color("commit_cards"@),
        is_no_color("count_label"@),
        is_no_color("diff_filter_bar"@),
        is_no_color("diff_section"@),
        is_no_color("sha1"@),
        is_no_color("sha2"@),
        is_no_color("cards"@),
        is_no_color("summary_html"@),
        is_no_color("diff_html"@),
        "css"@.len() == 3,
        "js"@.len() == 2 && "js"@[0] == 'j',
        "s1"@.len() == 2 && "s1"@[0] == 's' && "s1"@[1] == '1',
        "s2"@.len() == 2 && "s2"@[0] == 's' && "s2"@[1] == '2',
        "diff_json"@.len() == 9,
        "filter_json"@.len() == 11 && "filter_json"@[0] == 'f',
        "commit_cards"@.len() == 12 && "commit_cards"@[0] == 'c',
        "count_label"@.len() == 11 && "count_label"@[0] == 'c',
        "diff_filter_bar"@.len() == 15,
        "diff_section"@.len() == 12 && "diff_section"@[0] == 'd',
        "sha1"@.len() == 4 && "sha1"@[3] == '1',
        "sha2"@.len() == 4 && "sha2"@[3] == '2',
        "cards"@.len() == 5,
        "summary_html"@.len() == 12,
        "diff_html"@.len() == 9,
{
    reveal_strlit("css");
    reveal_strlit("js");
    reveal_strlit("s1");
    reveal_strlit("s2");
    reveal_strlit("diff_json");
    reveal_strlit("filter_json");
    reveal_strlit("commit_cards");
    reveal_strlit("count_label");
    reveal_strlit("diff_filter_bar");
    reveal_strlit("diff_section");
    reveal_strlit("sha1");
    reveal_strlit("sha2");
    reveal_strlit("cards");
    reveal_strlit("summary_html");
    reveal_strlit("diff_html");
}

/// The part of a page that shows a diff has the colors of its theme, names both commits, the first
/// one first, and holds the diff, the filter, the cards of the commits and how many they are.
pub proof fn law_section_shows_the_diff(q: DiffView, diff: Seq<char>, cards: (Seq<char>, nat))
    ensures
        exists|b: Seq<(Seq<char>, Seq<char>)>|
            {
                &&& diff_page::section_html(q, diff, cards) == #[trigger] template::expand(
                    pages::DIFF_SECTION@,
                    b,
                )
                &&& template::value_of(b, "bg"@) == palette::palette(q.theme).bg@
                &&& template::value_of(b, "css"@) == q.css
                &&& template::value_of(b, "js"@) == q.js
                &&& template::value_of(b, "s1"@) == text::first_chars(q.sha1, 7)
                &&& template::value_of(b, "s2"@) == text::first_chars(q.sha2, 7)
                &&& template::value_of(b, "diff_json"@) == escape::json_string(diff)
                &&& template::value_of(b, "filter_json"@) == escape::json_string(q.filter)
                &&& template::value_of(b, "commit_cards"@) == cards.0
                &&& template::value_of(b, "count_label"@) == cards::count_label(cards.1)
            },
{
    lemma_names();
    let p = palette::palette(q.theme);
    let own = seq![
        ("css"@, q.css),
        ("js"@, q.js),
        ("s1"@, html_page::short(q.sha1)),
        ("s2"@, html_page::short(q.sha2)),
        ("diff_json"@, escape::json_string(diff)),
        ("filter_json"@, escape::json_string(q.filter)),
        ("commit_cards"@, cards.0),
        ("count_label"@, cards::count_label(cards.1)),
    ];
    let b = html_page::color_bindings(p) + own;
    assert(b =~= html_page::color_bindings(p).push(own[0]).push(own[1]).push(own[2]).push(
        own[3],
    ).push(own[4]).push(own[5]).push(own[6]).push(own[7]));
    lemma_own(p, own, 0);
    lemma_own(p, own, 1);
    lemma_own(p, own, 2);
    lemma_own(p, own, 3);
    lemma_own(p, own, 4);
    lemma_own(p, own, 5);
    lemma_own(p, own, 6);
    lemma_own(p, own, 7);
    assert(diff_page::section_html(q, diff, cards) == template::expand(pages::DIFF_SECTION@, b));
}

/// The page of a range has the colors of its theme, names both commits, the first one first, and
/// holds the cards of the commits and how many they are. It shows the diff with the bar above it,
/// or, where too many files changed, says that and how many.
pub proof fn law_page_shows_the_diff(
    q: DiffView,
    too_many: Option<nat>,
    diff: Seq<char>,
    cards: (Seq<char>, nat),
)
    ensures
        exists|b: Seq<(Seq<char>, Seq<char>)>|
            {
                &&& diff_page::diff_page(q, too_many, diff, cards) == #[trigger] template::expand(
                    pages::DIFF_PAGE@,
                    b,
                )
                &&& template::value_of(b, "bg"@) == palette::palette(q.theme).bg@
                &&& template::value_of(b, "css"@) == q.css
                &&& template::value_of(b, "s1"@) == text::first_chars(q.sha1, 7)
                &&& template::value_of(b, "s2"@) == text::first_chars(q.sha2, 7)
                &&& template::value_of(b, "commit_cards"@) == cards.0
                &&& template::value_of(b, "count_label"@) == cards::count_label(cards.1)
                &&& too_many is None ==> template::value_of(b, "diff_filter_bar"@)
                    == diff_page::filter_bar(q) && template::value_of(b, "diff_section"@)
                    == diff_page::diff_part(q, diff)
                &&& too_many matches Some(files) ==> template::value_of(
                    b,
                    "diff_filter_bar"@,
                ).len() == 0 && template::value_of(b, "diff_section"@)
                    == diff_page::suppressed_notice(files, q.max_files as nat)
            },
{
    lemma_names();
    let p = palette::palette(q.theme);
    let own = seq![
        ("css"@, q.css),
        ("s1"@, html_page::short(q.sha1)),
        ("s2"@, html_page::short(q.sha2)),
        (
            "diff_filter_bar"@,
            match too_many {
                Some(files) => seq![],
                None => diff_page::filter_bar(q),
            },
        ),
        (
            "diff_section"@,
            match too_many {
                Some(files) => diff_page::suppressed_notice(files, q.max_files as nat),
                None => diff_page::diff_part(q, diff),
            },
        ),
        ("commit_cards"@, cards.0),
        ("count_label"@, cards::count_label(cards.1)),
    ];
    let b = html_page::color_bindings(p) + own;
    assert(b =~= html_page::color_bindings(p).push(own[0]).push(own[1]).push(own[2]).push(
        own[3],
    ).push(own[4]).push(own[5]).push(own[6]));
    lemma_own(p, own, 0);
    lemma_own(p, own, 1);
    lemma_own(p, own, 2);
    lemma_own(p, own, 3);
    lemma_own(p, own, 4);
    lemma_own(p, own, 5);
    lemma_own(p, own, 6);
    assert(diff_page::diff_page(q, too_many, diff, cards) == template::expand(
        pages::DIFF_PAGE@,
        b,
    ));
}

/// The page of a log has the colors of its theme, names both commits, the first one first, and holds
/// the cards of the commits and how many they are.
pub proof fn law_log_page_shows_the_cards(
    sha1: Seq<char>,
    sha2: Seq<char>,
    cards: (Seq<char>, nat),
    theme: Theme,
)
    ensures
        exists|b: Seq<(Seq<char>, Seq<char>)>|
            {
                &&& diff_page::log_page(sha1, sha2, cards, theme) == #[trigger] template::expand(
                    pages::LOG_PAGE@,
                    b,
                )
                &&& template::value_of(b, "bg"@) == palette::palette(theme).bg@
                &&& template::value_of(b, "sha1"@) == sha1
                &&& template::value_of(b, "sha2"@) == sha2
                &&& template::value_of(b, "cards"@) == cards.0
                &&& template::value_of(b, "count_label"@) == cards::count_label(cards.1)
            },
{
    lemma_names();
    let p = palette::palette(theme);
    let own = seq![
        ("sha1"@, sha1),
        ("sha2"@, sha2),
        ("count_label"@, cards::count_label(cards.1)),
        ("cards"@, cards.0),
    ];
    let b = html_page::color_bindings(p) + own;
    assert(b =~= html_page::color_bindings(p).push(own[0]).push(own[1]).push(own[2]).push(own[3]));
    lemma_own(p, own, 0);
    lemma_own(p, own, 1);
    lemma_own(p, own, 2);
    lemma_own(p, own, 3);
    assert(diff_page::log_page(sha1, sha2, cards, theme) == template::expand(pages::LOG_PAGE@, b));
}

/// The page of a summary has the colors of its theme, names both commits, the first one first, and
/// holds the summary and the part that shows the diff.
pub proof fn law_summary_page_shows_the_summary(
    sha1: Seq<char>,
    sha2: Seq<char>,
    summary: Seq<char>,
    theme: Theme,
    diff: Seq<char>,
)
    ensures
        exists|b: Seq<(Seq<char>, Seq<char>)>|
            {
                &&& html_page::summary_page(sha1, sha2, summary, theme, diff)
                    == #[trigger] template::expand(pages::SUMMARY_PAGE@, b)
                &&& template::value_of(b, "bg"@) == palette::palette(theme).bg@
                &&& template::value_of(b, "sha1"@) == sha1
                &&& template::value_of(b, "sha2"@) == sha2
                &&& template::value_of(b, "summary_html"@) == summary
                &&& template::value_of(b, "diff_html"@) == diff
            },
{
    lemma_names();
    let p = palette::palette(theme);
    let own = seq![
        ("sha1"@, sha1),
        ("sha2"@, sha2),
        ("summary_html"@, summary),
        ("diff_html"@, diff),
    ];
    let b = html_page::color_bindings(p) + own;
    assert(b =~= html_page::color_bindings(p).push(own[0]).push(own[1]).push(own[2]).push(own[3]));
    lemma_own(p, own, 0);
    lemma_own(p, own, 1);
    lemma_own(p, own, 2);
    lemma_own(p, own, 3);
    assert(html_page::summary_page(sha1, sha2, summary, theme, diff) == template::expand(
        pages::SUMMARY_PAGE@,
        b,
    ));
}

/// The link to the forge leads to the page that compares the two commits, the first one first. On
/// GitHub that page has another address than elsewhere.
pub proof fn law_link_compares_both_commits(q: DiffView)
    ensures
        match q.gitlab_url {
            Some(base) => exists|b: Seq<(Seq<char>, Seq<char>)>|
                {
                    &&& diff_page::forge_link(q) == #[trigger] template::expand(
                        pages::FORGE_LINK@,
                        b,
                    )
                    &&& template::value_of(b, "base"@) == base
                    &&& search::contains_text(base, "github.com"@) ==> template::value_of(
                        b,
                        "compare_segment"@,
                    ) == "/compare/"@
                    &&& !search::contains_text(base, "github.com"@) ==> template::value_of(
                        b,
                        "compare_segment"@,
                    ) == "/-/compare/"@
                    &&& template::value_of(b, "sha1"@) == q.sha1
                    &&& template::value_of(b, "sha2"@) == q.sha2
                },
            None => diff_page::forge_link(q).len() == 0,
        },
{
    reveal_strlit("base");
    reveal_strlit("compare_segment");
    reveal_strlit("sha1");
    reveal_strlit("sha2");
    assert("base"@.len() == 4 && "base"@[0] == 'b');
    assert("compare_segment"@.len() == 15);
    assert("sha1"@.len() == 4 && "sha1"@[0] == 's' && "sha1"@[3] == '1');
    assert("sha2"@.len() == 4 && "sha2"@[0] == 's' && "sha2"@[3] == '2');
    match q.gitlab_url {
        Some(base) => {
            let b = seq![
                ("base"@, base),
                (
                    "compare_segment"@,
                    if search::contains_text(base, "github.com"@) {
                        "/compare/"@
                    } else {
                        "/-/compare/"@
                    },
                ),
                ("sha1"@, q.sha1),
                ("sha2"@, q.sha2),
            ];
            lemma_value(b, 0, "base"@);
            lemma_value(b, 1, "compare_segment"@);
            lemma_value(b, 2, "sha1"@);
            lemma_value(b, 3, "sha2"@);
            assert(diff_page::forge_link(q) == template::expand(pages::FORGE_LINK@, b));
        },
        None => {},
    }
}

/// The notice that too many files changed says how many, and how many there may be.
pub proof fn law_notice_gives_both_numbers(files: nat, max: nat)
    ensures
        exists|b: Seq<(Seq<char>, Seq<char>)>|
            {
                &&& diff_page::suppressed_notice(files, max) == #[trigger] template::expand(
                    pages::SUPPRESSED_NOTICE@,
                    b,
                )
                &&& template::value_of(b, "file_count"@) == number::decimal(files)
                &&& template::value_of(b, "max_diff_files"@) == number::decimal(max)
            },
{
    reveal_strlit("file_count");
    reveal_strlit("max_diff_files");
    assert("file_count"@.len() == 10);
    assert("max_diff_files"@.len() == 14);
    let b = seq![("file_count"@, number::decimal(files)), ("max_diff_files"@, number::decimal(max))];
    lemma_value(b, 0, "file_count"@);
    lemma_value(b, 1, "max_diff_files"@);
    assert(diff_page::suppressed_notice(files, max) == template::expand(
        pages::SUPPRESSED_NOTICE@,
        b,
    ));
}

/// Every ref of a list that says anything has its badge: HEAD with its branch, a tag, a remote
/// branch or a local one.
pub proof fn law_every_ref_has_a_badge(refs: Seq<char>, i: int)
    requires
        0 <= i < search::split(refs, ", "@).len(),
        lines::trim(search::split(refs, ", "@)[i]).len() > 0,
    ensures
        ({
            let name = lines::trim(search::split(refs, ", "@)[i]);
            let badges = cards::ref_badges(refs);
            if text::starts_with(name, "HEAD -> "@) {
                dot_laws::holds(
                    badges,
                    "<span class=\"ref-head\">HEAD</span><span class=\"ref-branch\">"@
                        + escape::html_escaped(name.skip(8)) + "</span>"@,
                )
            } else if text::starts_with(name, "tag: "@) {
                dot_laws::holds(
                    badges,
                    "<span class=\"ref-tag\">"@ + escape::html_escaped(name.skip(5)) + "</span>"@,
                )
            } else if name.contains('/') {
                dot_laws::holds(
                    badges,
                    "<span class=\"ref-remote\">"@ + escape::html_escaped(name) + "</span>"@,
                )
            } else {
                dot_laws::holds(
                    badges,
                    "<span class=\"ref-branch\">"@ + escape::html_escaped(name) + "</span>"@,
                )
            }
        }),
{
    reveal_strlit("HEAD -> ");
    reveal_strlit("tag: ");
    reveal_strlit("/");
    reveal_strlit("</span>");
    assert("HEAD -> "@.len() == 8);
    assert("tag: "@.len() == 5);
    assert("</span>"@.len() == 7);
    let list = search::split(refs, ", "@);
    let name = lines::trim(list[i]);
    let badges = cards::badge_list(list);
    let badge = cards::ref_badge(list[i]);
    if name.contains('/') {
        let k = choose|k: int| 0 <= k < name.len() && name[k] == '/';
        assert(name.subrange(k, k + 1) =~= "/"@);
        assert(text::occurs_at(name, "/"@, k));
    }
    if search::contains_text(name, "/"@) {
        let k = choose|k: int| text::occurs_at(name, "/"@, k);
        assert(name.subrange(k, k + 1)[0] == '/');
        assert(name[k] == '/');
    }
    assert(badge.len() >= 7);
    assert(badges[i] == badge);
    dot_laws::lemma_filled_keeps(badges, i);
    let kept = text::filled(badges);
    let k = choose|k: int| 0 <= k < kept.len() && kept[k] == badge;
    dot_laws::lemma_join_holds(kept, " "@, k);
}

} // verus!
