use ggv::charset::{is_alphanumeric, is_valid_pathspec, is_valid_ref_name, is_valid_sha};
use ggv::escape::{dot_escape, html_escape, to_json_string, tooltip_escape};
use ggv::lines::{
    is_blank, is_white_space, split_lines, split_words, trimmed, trimmed_end, trimmed_start,
};
use ggv::names::{insert_pair, NameSet};
use ggv::number::{count_text, decimal_text, hex_value, push_hex_byte, signed_text};
use ggv::percent::{percent_decode, url_encode_ref};
use ggv::search::{
    cut, cut_at_most, cut_once, has_text, index_of, joined, last_index_of, substitute,
    substitute_first,
};
use ggv::template::fill;
use ggv::text::{
    begins_with, comes_before, same_text, take_chars, without_leading, without_prefix,
    without_trailing,
};
use ggv::utils::{
    output_path, repo_name_from_path, safe_file_name, time_ago, time_ago_at, trim_separators,
};

fn strings(parts: &[&str]) -> Vec<String> {
    parts.iter().map(|s| s.to_string()).collect()
}

#[test]
fn prefixes_and_suffixes() {
    assert!(begins_with("refs/heads/main", "refs/heads/"));
    assert!(!begins_with("refs", "refs/heads/"));
    assert_eq!(without_prefix("HEAD -> main", "HEAD -> "), Some("main".to_string()));
    assert_eq!(without_prefix("main", "HEAD -> "), None);
    assert_eq!(without_leading("### ### x", "### "), "x");
    assert_eq!(without_trailing("repo.git.git", ".git"), "repo");
    assert_eq!(without_trailing("repo", ".git"), "repo");
    assert_eq!(take_chars("größe", 3), "grö");
    assert_eq!(take_chars("ab", 7), "ab");
}

#[test]
fn texts_are_ordered_like_strings() {
    let words = ["", "a", "ab", "b", "B", "ä", "zz", "日本", "\u{10000}"];
    for a in words {
        for b in words {
            assert_eq!(comes_before(a, b), a < b, "{a} {b}");
            assert_eq!(same_text(a, b), a == b);
        }
    }
}

#[test]
fn searching() {
    assert_eq!(index_of("abcabc", "bc"), Some(1));
    assert_eq!(last_index_of("abcabc", "bc"), Some(4));
    assert_eq!(index_of("abc", "x"), None);
    assert_eq!(last_index_of("abc", "x"), None);
    assert_eq!(index_of("", ""), Some(0));
    assert_eq!(last_index_of("ab", ""), Some(2));
    assert!(has_text("https://github.com/x", "github.com"));
    assert!(!has_text("https://gitlab.com/x", "github.com"));
}

#[test]
fn cutting_and_joining() {
    assert_eq!(cut_once("a=b=c", "="), Some(("a".to_string(), "b=c".to_string())));
    assert_eq!(cut_once("abc", "="), None);
    assert_eq!(cut("a, b, , c", ", "), strings(&["a", "b", "", "c"]));
    assert_eq!(cut("", ","), strings(&[""]));
    assert_eq!(cut_at_most("a, b, c, d, e", 4, ", "), strings(&["a", "b", "c", "d, e"]));
    assert_eq!(cut_at_most("a", 4, ", "), strings(&["a"]));
    assert_eq!(joined(&strings(&["a", "b", "c"]), "|"), "a|b|c");
    assert_eq!(joined(&strings(&[]), "|"), "");
    assert_eq!(joined(&strings(&["a"]), "|"), "a");
}

#[test]
fn cutting_undoes_joining() {
    let parts = strings(&["main", "", "feature/x", "v1"]);
    assert_eq!(cut(&joined(&parts, ","), ","), parts);
}

#[test]
fn replacing() {
    assert_eq!(substitute("aXbXc", "X", "--"), "a--b--c");
    assert_eq!(substitute("aaa", "aa", "b"), "ba");
    assert_eq!(substitute("abc", "X", "--"), "abc");
    assert_eq!(substitute_first("</body></body>", "</body>", "!"), "!</body>");
    assert_eq!(substitute_first("abc", "</body>", "!"), "abc");
}

#[test]
fn white_space_is_that_of_char() {
    let mut c: u32 = 0;
    while c <= 0x10ffff {
        if let Some(c) = char::from_u32(c) {
            assert_eq!(is_white_space(c), c.is_whitespace(), "{:?}", c);
        }
        c += 1;
    }
}

#[test]
fn alphanumeric_is_that_of_char() {
    let mut c: u32 = 0;
    while c <= 0x10ffff {
        if let Some(c) = char::from_u32(c) {
            assert_eq!(is_alphanumeric(c), c.is_alphanumeric(), "{:?}", c);
        }
        c += 1;
    }
}

#[test]
fn lines_and_words() {
    for s in ["", "a", "a\n", "a\r\nb", "\n\n", "a\rb\n", "a\n\r\n", "x\n y \n\nz"] {
        let expected: Vec<String> = s.lines().map(String::from).collect();
        assert_eq!(split_lines(s), expected, "{:?}", s);
    }
    for s in ["", "  ", "a b", " a\t\nb\u{a0}c ", "ab"] {
        let expected: Vec<String> = s.split_whitespace().map(String::from).collect();
        assert_eq!(split_words(s), expected, "{:?}", s);
        assert_eq!(trimmed(s), s.trim());
        assert_eq!(trimmed_start(s), s.trim_start());
        assert_eq!(trimmed_end(s), s.trim_end());
        assert_eq!(is_blank(s), s.trim().is_empty());
    }
}

#[test]
fn numbers() {
    assert_eq!(decimal_text(0), "0");
    assert_eq!(decimal_text(18446744073709551615), "18446744073709551615");
    assert_eq!(count_text(1200), "1200");
    assert_eq!(signed_text(-9223372036854775808), "-9223372036854775808");
    assert_eq!(signed_text(-7), "-7");
    assert_eq!(signed_text(42), "42");
    let mut out = String::new();
    push_hex_byte(&mut out, 0xaf);
    push_hex_byte(&mut out, 0x07);
    assert_eq!(out, "AF07");
    assert_eq!(hex_value('f'), Some(15));
    assert_eq!(hex_value('A'), Some(10));
    assert_eq!(hex_value('g'), None);
}

#[test]
fn html_escaping() {
    assert_eq!(html_escape("<a href=\"x\">&amp;</a>"), "&lt;a href=&quot;x&quot;&gt;&amp;amp;&lt;/a&gt;");
    assert_eq!(html_escape("it's plain"), "it's plain");
}

#[test]
fn dot_escaping() {
    assert_eq!(dot_escape("a\\b\"c\nd"), "a\\\\b\\\"c\nd");
    assert_eq!(tooltip_escape("a\\b\"c\nd"), "a\\\\b\\\"c\\nd");
}

#[test]
fn json_strings() {
    assert_eq!(to_json_string(""), "\"\"");
    assert_eq!(to_json_string("a\"b\\c\nd\re\tf"), "\"a\\\"b\\\\c\\nd\\re\\tf\"");
    assert_eq!(to_json_string("</script>"), "\"<\\/script>\"");
    assert_eq!(to_json_string("a < b / c <"), "\"a < b / c <\"");
    assert_eq!(to_json_string("\u{1}\u{1f}"), "\"\\u0001\\u001f\"");
    assert_eq!(to_json_string("ü→"), "\"ü→\"");
    assert!(!to_json_string("x</y</z").contains("</"));
}

#[test]
fn refs_in_urls() {
    assert_eq!(url_encode_ref("feature/ü x~"), "feature%2F%C3%BC%20x~");
    assert_eq!(url_encode_ref("v1.0-rc_2"), "v1.0-rc_2");
    assert_eq!(percent_decode("a+b%20c%2F"), "a b c/");
    assert_eq!(percent_decode("%2"), "%2");
    assert_eq!(percent_decode("%zz1"), "%zz1");
    assert_eq!(percent_decode("%C3%BC"), "\u{c3}\u{bc}");
    assert_eq!(percent_decode(&url_encode_ref("a/b+c d%41")), "a/b+c d%41");
}

#[test]
fn ref_names() {
    assert!(is_valid_ref_name("feature/größe-1_2.3@~"));
    assert!(!is_valid_ref_name(""));
    assert!(!is_valid_ref_name("a b"));
    assert!(!is_valid_ref_name("a;b"));
    assert!(!is_valid_ref_name("a→b"));
    assert!(is_valid_ref_name(&"a".repeat(256)));
    assert!(!is_valid_ref_name(&"a".repeat(257)));
    assert!(is_valid_ref_name(&"ü".repeat(128)));
    assert!(!is_valid_ref_name(&"ü".repeat(129)));
}

#[test]
fn hashes() {
    assert!(is_valid_sha("0123456"));
    assert!(is_valid_sha("ABCDEFabcdef"));
    assert!(!is_valid_sha("012345"));
    assert!(!is_valid_sha("012345g"));
    assert!(is_valid_sha(&"a".repeat(40)));
    assert!(!is_valid_sha(&"a".repeat(41)));
    assert!(is_valid_ref_name(&"a".repeat(40)));
}

#[test]
fn path_patterns() {
    assert!(is_valid_pathspec("src/*.[ch]?"));
    assert!(!is_valid_pathspec("$(x)"));
    assert!(!is_valid_pathspec(""));
    assert!(is_valid_pathspec(&"a".repeat(200)));
    assert!(!is_valid_pathspec(&"a".repeat(201)));
}

#[test]
fn ages() {
    let day = 86400;
    assert_eq!(time_ago_at(100, 100), "0 seconds ago");
    assert_eq!(time_ago_at(101, 100), "1 second ago");
    assert_eq!(time_ago_at(159, 100), "59 seconds ago");
    assert_eq!(time_ago_at(160, 100), "1 minute ago");
    assert_eq!(time_ago_at(3599, 0), "59 minutes ago");
    assert_eq!(time_ago_at(3600, 0), "1 hour ago");
    assert_eq!(time_ago_at(day - 1, 0), "23 hours ago");
    assert_eq!(time_ago_at(day, 0), "1 day ago");
    assert_eq!(time_ago_at(day * 29, 0), "29 days ago");
    assert_eq!(time_ago_at(day * 30, 0), "1 month ago");
    assert_eq!(time_ago_at(day * 364, 0), "12 months ago");
    assert_eq!(time_ago_at(day * 365, 0), "1 year ago");
    assert_eq!(time_ago_at(day * 730, 0), "2 years ago");
    assert_eq!(time_ago_at(0, 5), "-5 seconds ago");
}

#[test]
fn ages_up_to_now() {
    let now = std::time::SystemTime::now()
        .duration_since(std::time::UNIX_EPOCH)
        .unwrap()
        .as_secs() as i64;
    let years = (now - 0) / (86400 * 365);
    assert_eq!(time_ago(0), format!("{} years ago", years));
    assert_eq!(time_ago(now - 90), "1 minute ago");
}

#[test]
fn names_of_files() {
    assert_eq!(repo_name_from_path(Some("ggv")), "ggv");
    assert_eq!(repo_name_from_path(None), "repo");
    assert_eq!(safe_file_name("feature/größe~1"), "feature-größe-1");
    assert_eq!(safe_file_name("v1.0_a-b"), "v1.0_a-b");
    assert_eq!(output_path(None, "ggv", None), "ggv-ggv.dot");
    assert_eq!(output_path(None, "ggv", Some("a/b")), "ggv-ggv-from-a-b.dot");
    assert_eq!(output_path(Some("x.dot"), "ggv", Some("a/b")), "x.dot");
    assert_eq!(trim_separators("/home/x/repo/\\/"), "/home/x/repo");
    assert_eq!(trim_separators("///"), "");
    assert_eq!(trim_separators("repo"), "repo");
}

#[test]
fn sets_of_names() {
    let mut set = NameSet::new();
    assert!(set.is_empty());
    for name in ["b", "a", "c", "b", "ab"] {
        set.insert(name.to_string());
    }
    let names: Vec<&str> = (0..set.len()).map(|i| set.get(i)).collect();
    assert_eq!(names, ["a", "ab", "b", "c"]);
    let mut pairs: Vec<(String, String)> = Vec::new();
    for (a, b) in [("o", "x"), ("a", "z"), ("o", "b"), ("o", "x")] {
        insert_pair(&mut pairs, a.to_string(), b.to_string());
    }
    let expected: Vec<(String, String)> = [("a", "z"), ("o", "b"), ("o", "x")]
        .iter()
        .map(|p| (p.0.to_string(), p.1.to_string()))
        .collect();
    assert_eq!(pairs, expected);
}

#[test]
fn templates() {
    let b = vec![("bg", "#fff"), ("x", "{bg}"), ("bg", "later")];
    assert_eq!(fill("body{{background:{bg}}}", &b), "body{background:#fff}");
    assert_eq!(fill("{x}{missing}!", &b), "{bg}!");
    assert_eq!(fill("plain", &b), "plain");
    assert_eq!(fill("open {bg", &b), "open {bg");
    assert_eq!(fill("a } b", &b), "a } b");
    assert_eq!(fill("{{{bg}}}", &b), "{#fff}");
}
