use ggv::cards::{
    batch_file_counts, render_commit_cards, render_ref_badge, render_ref_badges, write_count_label,
};
use ggv::diff_page::build_log_html;
use ggv::html_page::{
    build_html, build_no_diff_html, build_summary_page, build_view_html, inject_commit_navigation,
    short_sha,
};
use ggv::http::{base_url, heartbeat_expired, opened_page, Response};
use ggv::prompt::{build_prompt, with_audio, with_lang};
use ggv::query::{parse_pathspec, parse_query};
use ggv::theme::Theme;

#[test]
fn queries() {
    let q = parse_query("from=abc&to=d%20e&flag&to=f+g&=x&k=a=b");
    assert_eq!(q.get("from"), Some("abc"));
    assert_eq!(q.get("to"), Some("f g"));
    assert_eq!(q.get("flag"), None);
    assert_eq!(q.get(""), Some("x"));
    assert_eq!(q.get("k"), Some("a=b"));
    assert_eq!(parse_query("").get(""), None);
}

#[test]
fn path_filters() {
    assert_eq!(parse_pathspec(" *.cpp  src/[ab]?.h $(rm) a;b "), ["*.cpp", "src/[ab]?.h"]);
    assert!(parse_pathspec("").is_empty());
}

#[test]
fn responses() {
    assert_eq!(
        Response::plain(200, "ü").to_text(),
        "HTTP/1.1 200 OK\r\nContent-Type: text/plain\r\nContent-Length: 2\r\nConnection: close\r\n\r\nü"
    );
    assert_eq!(
        Response::html("x").to_text(),
        "HTTP/1.1 200 OK\r\nContent-Type: text/html; charset=utf-8\r\nContent-Length: 1\r\nConnection: close\r\n\r\nx"
    );
    assert!(Response::plain(400, "").to_text().starts_with("HTTP/1.1 400 Bad Request\r\n"));
    assert!(Response::plain(404, "").to_text().starts_with("HTTP/1.1 404 Not Found\r\n"));
    assert!(Response::plain(500, "").to_text().starts_with("HTTP/1.1 500 Error\r\n"));
}

#[test]
fn addresses() {
    assert_eq!(base_url(8080), "http://[::1]:8080");
    assert_eq!(opened_page(8080, false).as_deref(), Some("http://[::1]:8080/view"));
    assert_eq!(opened_page(8080, true), None);
}

#[test]
fn silence() {
    assert!(!heartbeat_expired(0, 1_000_000));
    assert!(!heartbeat_expired(1000, 1299));
    assert!(heartbeat_expired(1000, 1300));
    assert!(!heartbeat_expired(1000, 10));
}

#[test]
fn prompts() {
    assert_eq!(with_lang("p", "de-DE"), "p\nRespond in the language of locale: de-DE.");
    assert!(with_audio("p").starts_with("p\nThe audio/ogg.attachment is an extension for the prompt It may"));
    assert_eq!(build_prompt("p", "fr-FR", false), with_lang("p", "fr-FR"));
    assert_eq!(build_prompt("p", "fr-FR", true), with_audio(&with_lang("p", "fr-FR")));
}

#[test]
fn file_counts() {
    let list = "stray\nCOMMIT aaa\n\nf1\nf2\nCOMMIT bbb\nCOMMIT ccc\n \nf3\nCOMMIT aaa\nf4\n";
    let c = batch_file_counts(list);
    assert_eq!(c.count("aaa"), 1);
    assert_eq!(c.count("bbb"), 0);
    assert_eq!(c.count("ccc"), 1);
    assert_eq!(c.count("zzz"), 0);
}

#[test]
fn badges() {
    assert_eq!(render_ref_badge(" "), "");
    assert_eq!(
        render_ref_badge("HEAD -> <m>"),
        "<span class=\"ref-head\">HEAD</span><span class=\"ref-branch\">&lt;m&gt;</span>"
    );
    assert_eq!(render_ref_badge("tag: v1"), "<span class=\"ref-tag\">v1</span>");
    assert_eq!(render_ref_badge("origin/main"), "<span class=\"ref-remote\">origin/main</span>");
    assert_eq!(render_ref_badge(" main "), "<span class=\"ref-branch\">main</span>");
    assert_eq!(
        render_ref_badges("tag: v1, main"),
        "<span class=\"ref-tag\">v1</span> <span class=\"ref-branch\">main</span>"
    );
    assert_eq!(render_ref_badges(""), "");
}

#[test]
fn cards_of_a_log() {
    let log = "### abc1234, Ann, 2 days ago, HEAD -> main\n\nFix <x>\nfirst\n\nsecond\n\n\n### def5678, Bob, 3 days ago, \n\nStart\n\n";
    let counts = batch_file_counts("COMMIT abc1234\na\nb\nCOMMIT def5678\nc\n");
    let (cards, count) = render_commit_cards(&counts, log);
    assert_eq!(count, 2);
    let expected = "<div class=\"commit\" data-hash=\"abc1234\">
  <div class=\"meta\">
    <a class=\"hash\" href=\"/diff2html-single?commit=abc1234\" title=\"View this commit\">abc1234</a> <span class=\"ref-head\">HEAD</span><span class=\"ref-branch\">main</span> <span class=\"author\">Ann</span>
    <span class=\"time\">2 days ago</span> <span class=\"file-count\">2 files</span>
  </div>
  <div class=\"subject\">Fix &lt;x&gt;</div>
  <div class=\"body\">first

second</div>
</div><div class=\"commit\" data-hash=\"def5678\">
  <div class=\"meta\">
    <a class=\"hash\" href=\"/diff2html-single?commit=def5678\" title=\"View this commit\">def5678</a><span class=\"author\">Bob</span>
    <span class=\"time\">3 days ago</span> <span class=\"file-count\">1 file</span>
  </div>
  <div class=\"subject\">Start</div>
</div>";
    assert_eq!(cards, expected);
}

#[test]
fn the_age_stands_alone() {
    let counts = batch_file_counts("");
    for log in ["### a1, A, now, \n\nFix\n", "### a1, A, now\n\nFix\n", "###   a1, A, now  \n\nFix\n"] {
        let (cards, count) = render_commit_cards(&counts, log);
        assert_eq!(count, 1);
        assert!(cards.contains("<span class=\"time\">now</span>"), "{log}");
        assert!(cards.contains("data-hash=\"a1\""));
        assert!(cards.contains("<span class=\"file-count\">0 files</span>"));
    }
    let (cards, _) = render_commit_cards(&counts, "### a1, A, now, tag: v1, main \n\nFix\n");
    assert!(cards.contains("<span class=\"time\">now</span>"));
    assert!(cards.contains("<span class=\"ref-tag\">v1</span> <span class=\"ref-branch\">main</span>"));
}

#[test]
fn cards_of_an_empty_log() {
    let counts = batch_file_counts("");
    let (cards, count) = render_commit_cards(&counts, "");
    assert_eq!(count, 0);
    assert_eq!(cards, "<p class=\"empty\">No commits found in this range.</p>");
    let (cards, count) = render_commit_cards(&counts, "### only");
    assert_eq!(count, 1);
    assert!(cards.contains("data-hash=\"only\""));
    assert!(cards.contains("<div class=\"subject\"></div>\n</div>"));
}

#[test]
fn labels_of_counts() {
    assert_eq!(write_count_label(0), "0 commits");
    assert_eq!(write_count_label(1), "1 commit");
    assert_eq!(write_count_label(2), "2 commits");
}

#[test]
fn page_without_differences() {
    let html = build_no_diff_html("0123456789", "abcdef0123", Theme::Light);
    assert!(html.contains("<p>0123456 &rarr; abcdef0 are identical.</p>"));
    assert!(html.contains("margin:0;background:#f8fafc}"));
    assert!(html.contains("p{margin:0 0 16px;color:#64748b}"));
    assert!(html.starts_with("<html><head><meta charset=\"utf-8\"><style>\nbody{font-family:"));
    assert!(!html.contains("{{"));
    assert_eq!(short_sha("012"), "012");
}

#[test]
fn page_of_the_graph() {
    let html = build_view_html("<?xml?><svg id=\"g\"></svg>", "my repo");
    assert!(html.contains("<title>⎇ my repo</title>"));
    assert!(html.contains("<body><svg id=\"g\"></svg>\n"));
    assert!(!html.contains("<?xml"));
    assert!(html.contains("svg { display: block; }"));
    assert!(html.contains("href=\"data:image/svg+xml,%3Csvg"));
    assert!(build_view_html("none", "r").contains("<body>none\n"));
}

#[test]
fn navigation_between_commits() {
    let page = "<html><body>x</body></html>";
    let html = inject_commit_navigation(page, Some("aaaaaaa"), None);
    assert!(html.starts_with("<html><body>x<div style=\"position:fixed;"));
    assert!(html.ends_with("</body></html>"));
    assert!(html.contains("var older = 'aaaaaaa';"));
    assert!(html.contains("var newer = null;"));
    assert!(html.contains("<a href=\"/diff2html-single?commit=aaaaaaa\" title=\"Older commit  [\""));
    assert!(html.contains("newer → ]</span>"));
    assert_eq!(inject_commit_navigation("no end", None, None), "no end");
    let html = inject_commit_navigation("a</body>b</body>", None, Some("bbbbbbb"));
    assert!(html.starts_with("a<div"));
    assert!(html.ends_with("</script>\n</body>b</body>"));
    assert!(html.contains("(function(){\n  var older = null;\n  var newer = 'bbbbbbb';\n  var overlay"));
    assert!(html.contains("gap:6px;z-index:9999;\">\n  <span style="));
    assert!(html.contains("<a href=\"/diff2html-single?commit=bbbbbbb\" title=\"Newer commit  ]\" style="));
}

#[test]
fn page_of_a_summary() {
    let html = build_summary_page("a", "b", "<p>s</p>", Theme::Dark, Some("<hr>"));
    assert!(html.contains("<div class=\"summary\"><p>s</p></div>"));
    assert!(html.contains("<span class=\"sha\">a</span>"));
    assert!(html.contains("</div>\n<hr>\n</body>"));
    assert!(html.contains("border-left: 3px solid #4a5568;"));
    assert!(html.contains("background: #0f1117; color: #e2e8f0;"));
}

#[test]
fn summaries_are_markdown() {
    let html = build_html("a", "b", "# Title\n\n- one *two*\n", Theme::Dark, None);
    assert!(html.contains("<h1>Title</h1>\n<ul>\n<li>one <em>two</em></li>\n</ul>"));
    let table = build_html("a", "b", "|x|\n|-|\n|~~y~~|\n", Theme::Dark, None);
    assert!(table.contains("<table>"));
    assert!(table.contains("<del>y</del>"));
}

#[test]
fn page_of_a_log() {
    let html = build_log_html("aaaaaaa", "bbbbbbb", "### abc, A, now, \n\nS\n", "COMMIT abc\nf\n", Theme::Light);
    assert!(html.contains("<span class=\"sha\">aaaaaaa</span>"));
    assert!(html.contains("<span class=\"count\">1 commit</span>"));
    assert!(html.contains("<div class=\"subject\">S</div>"));
    assert!(html.contains("1 file</span>"));
    assert!(html.contains("background: #f8fafc; color: #1e293b;"));
    assert!(!html.contains("{{"));
}
