//! The pages of the web server that need nothing but what they show.

use vstd::prelude::*;

use crate::markdown;
use crate::markdown::markdown_to_html;
use crate::pages;
use crate::palette;
use crate::palette::{page_colors, Palette};
use crate::search;
use crate::search::{index_of, substitute_first};
use crate::template;
use crate::template::fill;
use crate::text;
use crate::text::{chars_of, string_of, take_chars};
use crate::theme::Theme;

verus! {

/// A hash as pages show it.
pub open spec fn short(sha: Seq<char>) -> Seq<char> {
    text::first_chars(sha, 7)
}

/// A hash as pages show it.
pub fn short_sha(sha: &str) -> (r: String)
    ensures
        r@ == short(sha@),
{
    take_chars(sha, 7)
}

/// The values of the colors in templates.
pub open spec fn color_bindings(p: Palette) -> Seq<(Seq<char>, Seq<char>)> {
    seq![
        ("bg"@, p.bg@),
        ("card_bg"@, p.card_bg@),
        ("card_border"@, p.card_border@),
        ("card_hover"@, p.card_hover@),
        ("text"@, p.text@),
        ("sub"@, p.sub@),
        ("dim"@, p.dim@),
        ("h1_col"@, p.h1@),
        ("sha_bg"@, p.sha_bg@),
        ("sha_fg"@, p.sha_fg@),
        ("hash_bg"@, p.hash_bg@),
        ("hash_fg"@, p.hash_fg@),
        ("rh_bg"@, p.ref_head_bg@),
        ("rh_fg"@, p.ref_head_fg@),
        ("rb_bg"@, p.ref_branch_bg@),
        ("rb_fg"@, p.ref_branch_fg@),
        ("rr_bg"@, p.ref_remote_bg@),
        ("rr_fg"@, p.ref_remote_fg@),
        ("rt_bg"@, p.ref_tag_bg@),
        ("rt_fg"@, p.ref_tag_fg@),
        ("section_border"@, p.section_border@),
        ("code_bg"@, p.sha_bg@),
        ("blockquote_border"@, p.card_hover@),
    ]
}

/// The values of the colors in templates.
pub fn color_list(theme: Theme) -> (r: Vec<(&'static str, &'static str)>)
    ensures
        template::binding_views(r@) == color_bindings(palette::palette(theme)),
{
    let p = page_colors(theme);
    let v: Vec<(&'static str, &'static str)> = vec![
        ("bg", p.bg),
        ("card_bg", p.card_bg),
        ("card_border", p.card_border),
        ("card_hover", p.card_hover),
        ("text", p.text),
        ("sub", p.sub),
        ("dim", p.dim),
        ("h1_col", p.h1),
        ("sha_bg", p.sha_bg),
        ("sha_fg", p.sha_fg),
        ("hash_bg", p.hash_bg),
        ("hash_fg", p.hash_fg),
        ("rh_bg", p.ref_head_bg),
        ("rh_fg", p.ref_head_fg),
        ("rb_bg", p.ref_branch_bg),
        ("rb_fg", p.ref_branch_fg),
        ("rr_bg", p.ref_remote_bg),
        ("rr_fg", p.ref_remote_fg),
        ("rt_bg", p.ref_tag_bg),
        ("rt_fg", p.ref_tag_fg),
        ("section_border", p.section_border),
        ("code_bg", p.sha_bg),
        ("blockquote_border", p.card_hover),
    ];
    assert(template::binding_views(v@) =~= color_bindings(p));
    v
}

// ---------------------------------------------------------------------------------------------
// No differences
// ---------------------------------------------------------------------------------------------

/// The page for two commits without differences.
pub open spec fn no_diff_page(sha1: Seq<char>, sha2: Seq<char>, theme: Theme) -> Seq<char> {
    let p = palette::palette(theme);
    template::expand(
        pages::NO_DIFF_PAGE@,
        seq![
            ("bg"@, p.bg@),
            ("box_bg"@, p.card_bg@),
            ("box_border"@, p.card_border@),
            ("text"@, p.text@),
            ("sub"@, p.note@),
            ("s1"@, short(sha1)),
            ("s2"@, short(sha2)),
        ],
    )
}

/// The page for two commits without differences.
pub fn build_no_diff_html(sha1: &str, sha2: &str, theme: Theme) -> (r: String)
    ensures
        r@ == no_diff_page(sha1@, sha2@, theme),
{
    let p = page_colors(theme);
    let s1 = short_sha(sha1);
    let s2 = short_sha(sha2);
    let b: Vec<(&str, &str)> = vec![
        ("bg", p.bg),
        ("box_bg", p.card_bg),
        ("box_border", p.card_border),
        ("text", p.text),
        ("sub", p.note),
        ("s1", s1.as_str()),
        ("s2", s2.as_str()),
    ];
    assert(template::binding_views(b@) =~= seq![
        ("bg"@, p.bg@),
        ("box_bg"@, p.card_bg@),
        ("box_border"@, p.card_border@),
        ("text"@, p.text@),
        ("sub"@, p.note@),
        ("s1"@, s1@),
        ("s2"@, s2@),
    ]);
    fill(pages::NO_DIFF_PAGE, &b)
}

// ---------------------------------------------------------------------------------------------
// The graph
// ---------------------------------------------------------------------------------------------

/// The image without what stands before its first tag.
pub open spec fn svg_body(svg: Seq<char>) -> Seq<char> {
    match search::find(svg, "<svg"@) {
        Some(i) => svg.skip(i),
        None => svg,
    }
}

/// The page that shows the graph.
pub open spec fn view_page(svg: Seq<char>, repo_name: Seq<char>) -> Seq<char> {
    template::expand(
        pages::VIEW_PAGE@,
        seq![
            ("repo_name"@, repo_name),
            ("favicon"@, pages::FAVICON@),
            ("svg"@, svg_body(svg)),
        ],
    )
}

/// The page that shows the graph.
pub fn build_view_html(svg: &str, repo_name: &str) -> (r: String)
    ensures
        r@ == view_page(svg@, repo_name@),
{
    let body = match index_of(svg, "<svg") {
        Some(i) => {
            let v = chars_of(svg);
            let body = string_of(&v, i, v.len());
            assert(body@ =~= svg@.skip(i as int));
            body
        },
        None => svg.to_owned(),
    };
    let b: Vec<(&str, &str)> = vec![
        ("repo_name", repo_name),
        ("favicon", pages::FAVICON),
        ("svg", body.as_str()),
    ];
    assert(template::binding_views(b@) =~= seq![
        ("repo_name"@, repo_name@),
        ("favicon"@, pages::FAVICON@),
        ("svg"@, body@),
    ]);
    fill(pages::VIEW_PAGE, &b)
}

// ---------------------------------------------------------------------------------------------
// Navigation
// ---------------------------------------------------------------------------------------------

/// A commit as the script of the navigation writes it.
pub open spec fn script_commit(sha: Option<Seq<char>>) -> Seq<char> {
    match sha {
        Some(h) => "'"@ + h + "'"@,
        None => "null"@,
    }
}

/// The address of the page of one commit.
pub open spec fn commit_url(sha: Seq<char>) -> Seq<char> {
    "/diff2html-single?commit="@ + sha
}

/// A button of the navigation.
pub open spec fn nav_button(label: Seq<char>, sha: Option<Seq<char>>, title: Seq<char>) -> Seq<
    char,
> {
    match sha {
        Some(h) => "<a href=\""@ + commit_url(h) + "\""@ + template::expand(
            pages::NAV_LINK@,
            seq![("title"@, title), ("label"@, label)],
        ),
        None => template::expand(pages::NAV_PLACE@, seq![("label"@, label)]),
    }
}

/// The button that leads to the older commit.
pub open spec fn older_button(older: Option<Seq<char>>) -> Seq<char> {
    nav_button("[ ← older"@, older, "Older commit  ["@)
}

/// The button that leads to the newer commit.
pub open spec fn newer_button(newer: Option<Seq<char>>) -> Seq<char> {
    nav_button("newer → ]"@, newer, "Newer commit  ]"@)
}

/// The line of the script that gives a commit a name.
pub open spec fn script_line(name: Seq<char>, sha: Option<Seq<char>>) -> Seq<char> {
    "var "@ + name + " = "@ + script_commit(sha) + ";"@
}

/// The navigation between commits.
pub open spec fn navigation(older: Option<Seq<char>>, newer: Option<Seq<char>>) -> Seq<char> {
    pages::NAV_OPEN@ + older_button(older) + newer_button(newer) + pages::NAV_HELP@ + "  "@
        + script_line("older"@, older) + "\n  "@ + script_line("newer"@, newer) + "\n"@
        + pages::NAV_SCRIPT@
}

/// A page with the navigation at the end of its body.
pub open spec fn with_navigation(
    html: Seq<char>,
    older: Option<Seq<char>>,
    newer: Option<Seq<char>>,
) -> Seq<char> {
    search::replace_first(html, "</body>"@, navigation(older, newer) + "</body>"@)
}

/// A commit as the script of the navigation writes it.
fn write_script_commit(sha: Option<&str>) -> (r: String)
    ensures
        r@ == script_commit(text::opt_str_view(sha)),
{
    match sha {
        Some(h) => {
            let mut out = "'".to_owned();
            out.append(h);
            out.append("'");
            out
        },
        None => "null".to_owned(),
    }
}

/// A button of the navigation.
fn write_nav_button(label: &str, sha: Option<&str>, title: &str) -> (r: String)
    ensures
        r@ == nav_button(label@, text::opt_str_view(sha), title@),
{
    match sha {
        Some(h) => {
            let b: Vec<(&str, &str)> = vec![("title", title), ("label", label)];
            assert(template::binding_views(b@) =~= seq![("title"@, title@), ("label"@, label@)]);
            let rest = fill(pages::NAV_LINK, &b);
            let mut url = "/diff2html-single?commit=".to_owned();
            url.append(h);
            let mut out = "<a href=\"".to_owned();
            out.append(url.as_str());
            out.append("\"");
            out.append(rest.as_str());
            out
        },
        None => {
            let b: Vec<(&str, &str)> = vec![("label", label)];
            assert(template::binding_views(b@) =~= seq![("label"@, label@)]);
            fill(pages::NAV_PLACE, &b)
        },
    }
}

/// Puts the navigation between commits into a page: `[` leads to the older commit, `]` to the
/// newer one.
pub fn inject_commit_navigation(html: &str, older: Option<&str>, newer: Option<&str>) -> (r: String)
    ensures
        r@ == with_navigation(html@, text::opt_str_view(older), text::opt_str_view(newer)),
{
    let btn_older = write_nav_button("[ ← older", older, "Older commit  [");
    let btn_newer = write_nav_button("newer → ]", newer, "Newer commit  ]");
    let line_older = write_script_line("older", older);
    let line_newer = write_script_line("newer", newer);
    let mut bar = pages::NAV_OPEN.to_owned();
    bar.append(btn_older.as_str());
    bar.append(btn_newer.as_str());
    bar.append(pages::NAV_HELP);
    bar.append("  ");
    bar.append(line_older.as_str());
    bar.append("\n  ");
    bar.append(line_newer.as_str());
    bar.append("\n");
    bar.append(pages::NAV_SCRIPT);
    bar.append("</body>");
    substitute_first(html, "</body>", bar.as_str())
}

/// The line of the script that gives a commit a name.
fn write_script_line(name: &str, sha: Option<&str>) -> (r: String)
    ensures
        r@ == script_line(name@, text::opt_str_view(sha)),
{
    let commit = write_script_commit(sha);
    let mut out = "var ".to_owned();
    out.append(name);
    out.append(" = ");
    out.append(commit.as_str());
    out.append(";");
    out
}

/// A page without an end of its body is left as it is. In any other the navigation goes in front
/// of the first such end, and nothing else changes.
pub proof fn law_navigation_goes_before_the_end(
    a: Seq<char>,
    b: Seq<char>,
    older: Option<Seq<char>>,
    newer: Option<Seq<char>>,
)
    requires
        !search::contains_text(a, "</body>"@),
    ensures
        with_navigation(a, older, newer) == a,
        with_navigation(a + "</body>"@ + b, older, newer) == a + navigation(older, newer)
            + "</body>"@ + b,
{
    let p = "</body>"@;
    let html = a + p + b;
    let n = a.len() as int;
    search::lemma_find_contains(a, p);
    search::lemma_find_from(html, p, 0);
    assert(html.subrange(n, n + p.len()) =~= p);
    assert(text::occurs_at(html, p, n));
    assert forall|i: int| 0 <= i < n implies !text::occurs_at(html, p, i) by {
        if text::occurs_at(html, p, i) {
            reveal_strlit("</body>");
            let here = html.subrange(i, i + p.len());
            if i + p.len() <= n {
                assert(a.subrange(i, i + p.len()) =~= here);
                assert(text::occurs_at(a, p, i));
            } else {
                assert(here[n - i] == html[n]);
                assert(html[n] == p[0]);
                assert(p[n - i] == '<');
            }
        }
    }
    assert(search::find(html, p) == Some(n));
    assert(html.take(n) =~= a);
    assert(html.skip(n + p.len()) =~= b);
    assert(a + (navigation(older, newer) + p) + b =~= a + navigation(older, newer) + p + b);
}

/// The navigation tells its script the commits, and its buttons lead to their pages.
pub proof fn law_navigation_knows_its_neighbours(
    older: Option<Seq<char>>,
    newer: Option<Seq<char>>,
)
    ensures
        search::contains_text(
            navigation(older, newer),
            match older {
                Some(h) => "var older = '"@ + h + "';"@,
                None => "var older = null;"@,
            },
        ),
        search::contains_text(
            navigation(older, newer),
            match newer {
                Some(h) => "var newer = '"@ + h + "';"@,
                None => "var newer = null;"@,
            },
        ),
        older matches Some(h) ==> search::contains_text(
            navigation(older, newer),
            "<a href=\"/diff2html-single?commit="@ + h + "\""@,
        ),
        newer matches Some(h) ==> search::contains_text(
            navigation(older, newer),
            "<a href=\"/diff2html-single?commit="@ + h + "\""@,
        ),
{
    let start = pages::NAV_OPEN@;
    let x = older_button(older);
    let y = newer_button(newer);
    let u = script_line("older"@, older);
    let v = script_line("newer"@, newer);
    lemma_script_line(older, newer);
    lemma_navigation_parts(start, x, y, pages::NAV_HELP@, "  "@, u, "\n  "@, v, "\n"@, pages::NAV_SCRIPT@);
    if let Some(h) = older {
        lemma_link("[ ← older"@, h, "Older commit  ["@);
        lemma_part_of_part(
            navigation(older, newer),
            x,
            "<a href=\"/diff2html-single?commit="@ + h + "\""@,
        );
    }
    if let Some(h) = newer {
        lemma_link("newer → ]"@, h, "Newer commit  ]"@);
        lemma_part_of_part(
            navigation(older, newer),
            y,
            "<a href=\"/diff2html-single?commit="@ + h + "\""@,
        );
    }
}

/// The buttons and the lines of the script are parts of the navigation.
proof fn lemma_navigation_parts(
    a: Seq<char>,
    x: Seq<char>,
    y: Seq<char>,
    b: Seq<char>,
    c: Seq<char>,
    u: Seq<char>,
    d: Seq<char>,
    v: Seq<char>,
    e: Seq<char>,
    f: Seq<char>,
)
    ensures
        search::contains_text(a + x + y + b + c + u + d + v + e + f, x),
        search::contains_text(a + x + y + b + c + u + d + v + e + f, y),
        search::contains_text(a + x + y + b + c + u + d + v + e + f, u),
        search::contains_text(a + x + y + b + c + u + d + v + e + f, v),
{
    let ax = a + x;
    let axy = ax + y;
    let abc = axy + b + c;
    let abcu = abc + u;
    let abcud = abcu + d;
    let abcudv = abcud + v;
    lemma_part_occurs(a, x, seq![]);
    lemma_part_occurs(ax, y, seq![]);
    lemma_part_occurs(abc, u, seq![]);
    lemma_part_occurs(abcud, v, seq![]);
    assert(ax + seq![] =~= ax);
    assert(axy + seq![] =~= axy);
    assert(abcu + seq![] =~= abcu);
    assert(abcudv + seq![] =~= abcudv);
    lemma_grows(ax, y, x);
    lemma_grows(axy, b, x);
    lemma_grows(axy + b, c, x);
    lemma_grows(abc, u, x);
    lemma_grows(abcu, d, x);
    lemma_grows(abcud, v, x);
    lemma_grows(abcudv, e, x);
    lemma_grows(abcudv + e, f, x);
    lemma_grows(axy, b, y);
    lemma_grows(axy + b, c, y);
    lemma_grows(abc, u, y);
    lemma_grows(abcu, d, y);
    lemma_grows(abcud, v, y);
    lemma_grows(abcudv, e, y);
    lemma_grows(abcudv + e, f, y);
    lemma_grows(abcu, d, u);
    lemma_grows(abcud, v, u);
    lemma_grows(abcudv, e, u);
    lemma_grows(abcudv + e, f, u);
    lemma_grows(abcudv, e, v);
    lemma_grows(abcudv + e, f, v);
}

/// What a text holds, a longer one holds too.
proof fn lemma_grows(s: Seq<char>, more: Seq<char>, p: Seq<char>)
    requires
        search::contains_text(s, p),
    ensures
        search::contains_text(s + more, p),
{
    let i = choose|i: int| text::occurs_at(s, p, i);
    assert((s + more).subrange(i, i + p.len()) =~= s.subrange(i, i + p.len()));
    assert(text::occurs_at(s + more, p, i));
}

/// What a part of a text holds, the text holds too.
proof fn lemma_part_of_part(s: Seq<char>, part: Seq<char>, p: Seq<char>)
    requires
        search::contains_text(s, part),
        search::contains_text(part, p),
    ensures
        search::contains_text(s, p),
{
    let i = choose|i: int| text::occurs_at(s, part, i);
    let j = choose|j: int| text::occurs_at(part, p, j);
    let here = s.subrange(i + j, i + j + p.len());
    let there = part.subrange(j, j + p.len());
    assert forall|k: int| 0 <= k < p.len() implies #[trigger] here[k] == there[k] by {
        assert(s.subrange(i, i + part.len())[j + k] == s[i + j + k]);
    }
    assert(here =~= there);
    assert(text::occurs_at(s, p, i + j));
}

/// A text holds each part that it is put together of.
proof fn lemma_part_occurs(a: Seq<char>, p: Seq<char>, b: Seq<char>)
    ensures
        search::contains_text(a + p + b, p),
{
    let s = a + p + b;
    let n = a.len() as int;
    assert(s.subrange(n, n + p.len()) =~= p);
    assert(text::occurs_at(s, p, n));
}

/// A button that leads to a commit holds the address of its page.
proof fn lemma_link(label: Seq<char>, h: Seq<char>, title: Seq<char>)
    ensures
        search::contains_text(
            nav_button(label, Some(h), title),
            "<a href=\"/diff2html-single?commit="@ + h + "\""@,
        ),
{
    reveal_strlit("<a href=\"");
    reveal_strlit("/diff2html-single?commit=");
    reveal_strlit("<a href=\"/diff2html-single?commit=");
    let link = "<a href=\"/diff2html-single?commit="@ + h + "\""@;
    assert("<a href=\""@ + "/diff2html-single?commit="@
        =~= "<a href=\"/diff2html-single?commit="@);
    assert("<a href=\""@ + commit_url(h) + "\""@ =~= ("<a href=\""@
        + "/diff2html-single?commit="@) + h + "\""@);
    lemma_part_occurs(seq![], link, seq![]);
    assert(seq![] + link + seq![] =~= link);
    lemma_grows(
        link,
        template::expand(pages::NAV_LINK@, seq![("title"@, title), ("label"@, label)]),
        link,
    );
}

proof fn lemma_script_line(older: Option<Seq<char>>, newer: Option<Seq<char>>)
    ensures
        script_line("older"@, older) == (match older {
            Some(h) => "var older = '"@ + h + "';"@,
            None => "var older = null;"@,
        }),
        script_line("newer"@, newer) == (match newer {
            Some(h) => "var newer = '"@ + h + "';"@,
            None => "var newer = null;"@,
        }),
{
    reveal_strlit("var ");
    reveal_strlit("older");
    reveal_strlit("newer");
    reveal_strlit(" = ");
    reveal_strlit("'");
    reveal_strlit(";");
    reveal_strlit("';");
    reveal_strlit("null");
    reveal_strlit("var older = '");
    reveal_strlit("var newer = '");
    reveal_strlit("var older = null;");
    reveal_strlit("var newer = null;");
    assert("var "@ + "older"@ + " = "@ + "'"@ =~= "var older = '"@);
    assert("var "@ + "newer"@ + " = "@ + "'"@ =~= "var newer = '"@);
    assert("'"@ + ";"@ =~= "';"@);
    assert("var "@ + "older"@ + " = "@ + "null"@ + ";"@ =~= "var older = null;"@);
    assert("var "@ + "newer"@ + " = "@ + "null"@ + ";"@ =~= "var newer = null;"@);
    if let Some(h) = older {
        assert(script_line("older"@, older) =~= ("var "@ + "older"@ + " = "@ + "'"@) + h + ("'"@
            + ";"@));
    }
    if let Some(h) = newer {
        assert(script_line("newer"@, newer) =~= ("var "@ + "newer"@ + " = "@ + "'"@) + h + ("'"@
            + ";"@));
    }
}

// ---------------------------------------------------------------------------------------------
// Summary
// ---------------------------------------------------------------------------------------------

/// The page with the summary of a range.
pub open spec fn summary_page(
    sha1: Seq<char>,
    sha2: Seq<char>,
    summary_html: Seq<char>,
    theme: Theme,
    diff_html: Seq<char>,
) -> Seq<char> {
    template::expand(
        pages::SUMMARY_PAGE@,
        color_bindings(palette::palette(theme)).push(("sha1"@, sha1)).push(("sha2"@, sha2)).push(
            ("summary_html"@, summary_html),
        ).push(("diff_html"@, diff_html)),
    )
}

/// The page with the summary of a range, which is given as HTML.
pub fn build_summary_page(
    sha1: &str,
    sha2: &str,
    summary_html: &str,
    theme: Theme,
    diff_section: Option<&str>,
) -> (r: String)
    ensures
        r@ == summary_page(
            sha1@,
            sha2@,
            summary_html@,
            theme,
            match diff_section {
                Some(d) => d@,
                None => ""@,
            },
        ),
{
    let diff_html = match diff_section {
        Some(d) => d,
        None => "",
    };
    let mut b: Vec<(&str, &str)> = color_list(theme);
    let ghost colors = template::binding_views(b@);
    b.push(("sha1", sha1));
    b.push(("sha2", sha2));
    b.push(("summary_html", summary_html));
    b.push(("diff_html", diff_html));
    assert(template::binding_views(b@) =~= colors.push(("sha1"@, sha1@)).push(
        ("sha2"@, sha2@),
    ).push(("summary_html"@, summary_html@)).push(("diff_html"@, diff_html@)));
    fill(pages::SUMMARY_PAGE, &b)
}

/// The page with the summary of a range, which is given in Markdown.
pub fn build_html(
    sha1: &str,
    sha2: &str,
    summary: &str,
    theme: Theme,
    diff_section: Option<&str>,
) -> (r: String)
    ensures
        r@ == summary_page(
            sha1@,
            sha2@,
            markdown::markdown_html(summary@),
            theme,
            match diff_section {
                Some(d) => d@,
                None => ""@,
            },
        ),
{
    let summary_html = markdown_to_html(summary);
    build_summary_page(sha1, sha2, summary_html.as_str(), theme, diff_section)
}

} // verus!
