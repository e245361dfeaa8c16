//! Escaping text for HTML, for DOT strings and for JSON strings.

use vstd::prelude::*;

use crate::number;
use crate::number::hex_lower_digit;
use crate::search;
use crate::text;
use crate::text::chars_of;

verus! {

// ---------------------------------------------------------------------------------------------
// HTML
// ---------------------------------------------------------------------------------------------

/// What stands for one character in HTML.
pub open spec fn html_char(c: char) -> Seq<char> {
    if c == '&' {
        "&amp;"@
    } else if c == '<' {
        "&lt;"@
    } else if c == '>' {
        "&gt;"@
    } else if c == '"' {
        "&quot;"@
    } else {
        seq![c]
    }
}

/// `s` with every character that HTML gives a meaning written as an entity.
pub open spec fn html_escaped(s: Seq<char>) -> Seq<char>
    decreases s.len(),
{
    if s.len() == 0 {
        seq![]
    } else {
        html_char(s[0]) + html_escaped(s.drop_first())
    }
}

/// Writes `s` so that HTML shows it as it is, in text and in double-quoted attributes.
pub fn html_escape(s: &str) -> (r: String)
    ensures
        r@ == html_escaped(s@),
{
    let v = chars_of(s);
    let mut out = String::new();
    let mut i: usize = 0;
    assert(s@.skip(0) =~= s@);
    assert(out@ + html_escaped(s@) =~= html_escaped(s@));
    while i < v.len()
        invariant
            v@ == s@,
            i <= v@.len(),
            html_escaped(s@) == out@ + html_escaped(s@.skip(i as int)),
        decreases v@.len() - i,
    {
        let ghost before = out@;
        let c = v[i];
        if c == '&' {
            out.append("&amp;");
        } else if c == '<' {
            out.append("&lt;");
        } else if c == '>' {
            out.append("&gt;");
        } else if c == '"' {
            out.append("&quot;");
        } else {
            out.push(c);
        }
        assert(out@ =~= before + html_char(c));
        assert(s@.skip(i as int).drop_first() =~= s@.skip(i + 1));
        i = i + 1;
        assert(out@ + html_escaped(s@.skip(i as int)) =~= before + (html_char(c) + html_escaped(
            s@.skip(i as int),
        )));
    }
    assert(out@ + html_escaped(s@.skip(i as int)) =~= out@);
    out
}

/// Escaped text holds none of the characters that open a tag, close one or end an attribute.
pub proof fn law_html_escape_leaves_no_markup(s: Seq<char>)
    ensures
        forall|i: int|
            0 <= i < html_escaped(s).len() ==> #[trigger] html_escaped(s)[i] != '<'
                && html_escaped(s)[i] != '>' && html_escaped(s)[i] != '"',
    decreases s.len(),
{
    if s.len() > 0 {
        law_html_escape_leaves_no_markup(s.drop_first());
        reveal_strlit("&amp;");
        reveal_strlit("&lt;");
        reveal_strlit("&gt;");
        reveal_strlit("&quot;");
        let head = html_char(s[0]);
        let tail = html_escaped(s.drop_first());
        assert forall|i: int| 0 <= i < html_escaped(s).len() implies #[trigger] html_escaped(s)[i]
            != '<' && html_escaped(s)[i] != '>' && html_escaped(s)[i] != '"' by {
            if i < head.len() {
                assert(html_escaped(s)[i] == head[i]);
            } else {
                assert(html_escaped(s)[i] == tail[i - head.len()]);
            }
        }
    }
}

/// Text without any of the escaped characters is left as it is.
pub proof fn law_html_escape_keeps_plain_text(s: Seq<char>)
    requires
        forall|i: int|
            0 <= i < s.len() ==> #[trigger] s[i] != '&' && s[i] != '<' && s[i] != '>' && s[i] != '"',
    ensures
        html_escaped(s) == s,
    decreases s.len(),
{
    if s.len() > 0 {
        assert(forall|i: int| 0 <= i < s.len() - 1 ==> s.drop_first()[i] == s[i + 1]);
        law_html_escape_keeps_plain_text(s.drop_first());
        assert(html_escaped(s) =~= s);
    }
}

// ---------------------------------------------------------------------------------------------
// DOT
// ---------------------------------------------------------------------------------------------

/// What stands for one character in a DOT label.
pub open spec fn dot_char(c: char) -> Seq<char> {
    if c == '\\' {
        seq!['\\', '\\']
    } else if c == '"' {
        seq!['\\', '"']
    } else {
        seq![c]
    }
}

/// `s` as it is written between the double quotes of a DOT string.
pub open spec fn dot_escaped(s: Seq<char>) -> Seq<char>
    decreases s.len(),
{
    if s.len() == 0 {
        seq![]
    } else {
        dot_char(s[0]) + dot_escaped(s.drop_first())
    }
}

/// What stands for one character in a DOT tooltip: a line feed is written as `\n`.
pub open spec fn tooltip_char(c: char) -> Seq<char> {
    if c == '\n' {
        seq!['\\', 'n']
    } else {
        dot_char(c)
    }
}

/// `s` as it is written in a DOT tooltip.
pub open spec fn tooltip_escaped(s: Seq<char>) -> Seq<char>
    decreases s.len(),
{
    if s.len() == 0 {
        seq![]
    } else {
        tooltip_char(s[0]) + tooltip_escaped(s.drop_first())
    }
}

/// Escapes characters that break DOT double-quoted strings.
pub fn dot_escape(s: &str) -> (r: String)
    ensures
        r@ == dot_escaped(s@),
{
    let v = chars_of(s);
    let mut out = String::new();
    let mut i: usize = 0;
    assert(s@.skip(0) =~= s@);
    assert(out@ + dot_escaped(s@) =~= dot_escaped(s@));
    while i < v.len()
        invariant
            v@ == s@,
            i <= v@.len(),
            dot_escaped(s@) == out@ + dot_escaped(s@.skip(i as int)),
        decreases v@.len() - i,
    {
        let ghost before = out@;
        let c = v[i];
        if c == '\\' || c == '"' {
            out.push('\\');
        }
        out.push(c);
        assert(out@ =~= before + dot_char(c));
        assert(s@.skip(i as int).drop_first() =~= s@.skip(i + 1));
        i = i + 1;
        assert(out@ + dot_escaped(s@.skip(i as int)) =~= before + (dot_char(c) + dot_escaped(
            s@.skip(i as int),
        )));
    }
    assert(out@ + dot_escaped(s@.skip(i as int)) =~= out@);
    out
}

/// Escapes `s` for a DOT tooltip.
pub fn tooltip_escape(s: &str) -> (r: String)
    ensures
        r@ == tooltip_escaped(s@),
{
    let v = chars_of(s);
    let mut out = String::new();
    let mut i: usize = 0;
    assert(s@.skip(0) =~= s@);
    assert(out@ + tooltip_escaped(s@) =~= tooltip_escaped(s@));
    while i < v.len()
        invariant
            v@ == s@,
            i <= v@.len(),
            tooltip_escaped(s@) == out@ + tooltip_escaped(s@.skip(i as int)),
        decreases v@.len() - i,
    {
        let ghost before = out@;
        let c = v[i];
        if c == '\n' {
            out.push('\\');
            out.push('n');
        } else {
            if c == '\\' || c == '"' {
                out.push('\\');
            }
            out.push(c);
        }
        assert(out@ =~= before + tooltip_char(c));
        assert(s@.skip(i as int).drop_first() =~= s@.skip(i + 1));
        i = i + 1;
        assert(out@ + tooltip_escaped(s@.skip(i as int)) =~= before + (tooltip_char(c)
            + tooltip_escaped(s@.skip(i as int))));
    }
    assert(out@ + tooltip_escaped(s@.skip(i as int)) =~= out@);
    out
}

/// How far a DOT string reaches whose opening quote stands just before `s`: up to the first
/// double quote that no backslash escapes.
pub open spec fn dot_string_len(s: Seq<char>) -> Option<int>
    decreases s.len(),
{
    if s.len() == 0 {
        None
    } else if s[0] == '"' {
        Some(0)
    } else if s[0] == '\\' {
        if s.len() == 1 {
            None
        } else {
            match dot_string_len(s.skip(2)) {
                Some(n) => Some(n + 2),
                None => None,
            }
        }
    } else {
        match dot_string_len(s.drop_first()) {
            Some(n) => Some(n + 1),
            None => None,
        }
    }
}

/// An escaped text does not end the DOT string that it stands in: the quote that is written after
/// it does, whatever follows.
pub proof fn law_dot_escape_keeps_the_string_open(s: Seq<char>, after: Seq<char>)
    ensures
        dot_string_len(dot_escaped(s) + seq!['"'] + after) == Some(dot_escaped(s).len() as int),
    decreases s.len(),
{
    let whole = dot_escaped(s) + seq!['"'] + after;
    if s.len() > 0 {
        let rest = dot_escaped(s.drop_first()) + seq!['"'] + after;
        law_dot_escape_keeps_the_string_open(s.drop_first(), after);
        assert(whole =~= dot_char(s[0]) + rest);
        if s[0] == '\\' || s[0] == '"' {
            assert(whole.skip(2) =~= rest);
        } else {
            assert(whole.drop_first() =~= rest);
        }
    }
}

/// The same of a tooltip, which moreover stays on one line.
pub proof fn law_tooltip_escape_keeps_the_string_open(s: Seq<char>, after: Seq<char>)
    ensures
        dot_string_len(tooltip_escaped(s) + seq!['"'] + after) == Some(
            tooltip_escaped(s).len() as int,
        ),
        !tooltip_escaped(s).contains('\n'),
    decreases s.len(),
{
    let whole = tooltip_escaped(s) + seq!['"'] + after;
    if s.len() > 0 {
        let rest = tooltip_escaped(s.drop_first()) + seq!['"'] + after;
        law_tooltip_escape_keeps_the_string_open(s.drop_first(), after);
        assert(whole =~= tooltip_char(s[0]) + rest);
        if s[0] == '\\' || s[0] == '"' || s[0] == '\n' {
            assert(whole.skip(2) =~= rest);
        } else {
            assert(whole.drop_first() =~= rest);
        }
        let head = tooltip_char(s[0]);
        let tail = tooltip_escaped(s.drop_first());
        assert forall|i: int| 0 <= i < tooltip_escaped(s).len() implies tooltip_escaped(s)[i]
            != '\n' by {
            if i < head.len() {
                assert(tooltip_escaped(s)[i] == head[i]);
            } else {
                assert(tooltip_escaped(s)[i] == tail[i - head.len()]);
                assert(tail.contains(tail[i - head.len()]));
            }
        }
    }
}

// ---------------------------------------------------------------------------------------------
// JSON
// ---------------------------------------------------------------------------------------------

/// What stands for one character in a JSON string.
pub open spec fn json_char(c: char) -> Seq<char> {
    if c == '"' {
        seq!['\\', '"']
    } else if c == '\\' {
        seq!['\\', '\\']
    } else if c == '\n' {
        seq!['\\', 'n']
    } else if c == '\r' {
        seq!['\\', 'r']
    } else if c == '\t' {
        seq!['\\', 't']
    } else if ' ' > c {
        seq![
            '\\',
            'u',
            '0',
            '0',
            number::hex_lower(c as int / 16),
            number::hex_lower(c as int % 16),
        ]
    } else {
        seq![c]
    }
}

/// What stands between the quotes of the JSON string of `s`. A slash that follows `<` is escaped.
pub open spec fn json_chars(s: Seq<char>) -> Seq<char>
    decreases s.len(),
{
    if s.len() == 0 {
        seq![]
    } else if s.len() > 1 && s[0] == '<' && s[1] == '/' {
        seq!['<', '\\', '/'] + json_chars(s.skip(2))
    } else {
        json_char(s[0]) + json_chars(s.drop_first())
    }
}

/// The JSON string literal of `s`, with its quotes.
pub open spec fn json_string(s: Seq<char>) -> Seq<char> {
    seq!['"'] + json_chars(s) + seq!['"']
}

fn push_json_char(out: &mut String, c: char)
    ensures
        final(out)@ == old(out)@ + json_char(c),
{
    if c == '"' {
        out.push('\\');
        out.push('"');
    } else if c == '\\' {
        out.push('\\');
        out.push('\\');
    } else if c == '\n' {
        out.push('\\');
        out.push('n');
    } else if c == '\r' {
        out.push('\\');
        out.push('r');
    } else if c == '\t' {
        out.push('\\');
        out.push('t');
    } else if ' ' > c {
        let n: u32 = c as u32;
        out.push('\\');
        out.push('u');
        out.push('0');
        out.push('0');
        out.push(hex_lower_digit((n / 16) as u8));
        out.push(hex_lower_digit((n % 16) as u8));
    } else {
        out.push(c);
    }
    assert(out@ =~= old(out)@ + json_char(c));
}

/// Encodes an arbitrary string as a JSON string literal, with its quotes. `</` is written as
/// `<\/`, so that no `</script>` within the value ends an enclosing script element.
pub fn to_json_string(s: &str) -> (r: String)
    ensures
        r@ == json_string(s@),
{
    let v = chars_of(s);
    let mut out = String::new();
    out.push('"');
    let mut i: usize = 0;
    let ghost quote = seq!['"'];
    assert(s@.skip(0) =~= s@);
    assert(out@ + json_chars(s@) =~= quote + json_chars(s@));
    while i < v.len()
        invariant
            v@ == s@,
            i <= v@.len(),
            quote + json_chars(s@) == out@ + json_chars(s@.skip(i as int)),
        decreases v@.len() - i,
    {
        let ghost before = out@;
        let ghost rest = s@.skip(i as int);
        let c = v[i];
        if c == '<' && i + 1 < v.len() && v[i + 1] == '/' {
            out.push('<');
            out.push('\\');
            out.push('/');
            assert(rest.skip(2) =~= s@.skip(i + 2));
            i = i + 2;
            assert(out@ + json_chars(s@.skip(i as int)) =~= before + (seq!['<', '\\', '/']
                + json_chars(s@.skip(i as int))));
        } else {
            push_json_char(&mut out, c);
            assert(rest.drop_first() =~= s@.skip(i + 1));
            i = i + 1;
            assert(out@ + json_chars(s@.skip(i as int)) =~= before + (json_char(c) + json_chars(
                s@.skip(i as int),
            )));
        }
    }
    assert(out@ =~= quote + json_chars(s@));
    out.push('"');
    assert(out@ =~= json_string(s@));
    out
}

/// The text that stands between the quotes of a JSON string, read back.
pub open spec fn json_read(s: Seq<char>) -> Seq<char>
    decreases s.len(),
{
    if s.len() == 0 {
        seq![]
    } else if s[0] != '\\' || s.len() == 1 {
        seq![s[0]] + json_read(s.drop_first())
    } else if s[1] == 'n' {
        seq!['\n'] + json_read(s.skip(2))
    } else if s[1] == 'r' {
        seq!['\r'] + json_read(s.skip(2))
    } else if s[1] == 't' {
        seq!['\t'] + json_read(s.skip(2))
    } else if s[1] == 'u' && s.len() >= 6 {
        seq![json_code(s.subrange(2, 6))] + json_read(s.skip(6))
    } else {
        seq![s[1]] + json_read(s.skip(2))
    }
}

/// The character that four hexadecimal digits stand for.
pub open spec fn json_code(digits: Seq<char>) -> char {
    (4096 * number::hex_digit_value(digits[0]).unwrap() + 256 * number::hex_digit_value(
        digits[1],
    ).unwrap() + 16 * number::hex_digit_value(digits[2]).unwrap() + number::hex_digit_value(
        digits[3],
    ).unwrap()) as char
}

/// Reading the JSON string of a text gives the text back.
pub proof fn law_json_string_reads_back(s: Seq<char>)
    ensures
        json_read(json_chars(s)) == s,
    decreases s.len(),
{
    let out = json_chars(s);
    if s.len() > 0 {
        if s.len() > 1 && s[0] == '<' && s[1] == '/' {
            let rest = json_chars(s.skip(2));
            law_json_string_reads_back(s.skip(2));
            assert(out =~= seq!['<', '\\', '/'] + rest);
            let tail = out.drop_first();
            assert(tail.skip(2) =~= rest);
            assert(tail[0] == '\\' && tail[1] == '/');
            assert(json_read(tail) == seq!['/'] + s.skip(2));
            assert(json_read(out) =~= s);
        } else {
            let rest = json_chars(s.drop_first());
            let c = s[0];
            law_json_string_reads_back(s.drop_first());
            assert(out =~= json_char(c) + rest);
            if c == '"' || c == '\\' || c == '\n' || c == '\r' || c == '\t' {
                assert(out.skip(2) =~= rest);
            } else if ' ' > c {
                assert(out.skip(6) =~= rest);
                let digits = out.subrange(2, 6);
                assert(digits[0] == '0' && digits[1] == '0');
                assert(digits[2] == number::hex_lower(c as int / 16));
                assert(digits[3] == number::hex_lower(c as int % 16));
                number::lemma_control_digits(c);
                assert(json_code(digits) == c);
            } else {
                assert(out.drop_first() =~= rest);
            }
            assert(json_read(out) =~= s);
        }
    }
}

/// The JSON string of a text never holds `</`, so it cannot end a script element.
pub proof fn law_json_string_closes_no_element(s: Seq<char>)
    ensures
        !search::contains_text(json_string(s), seq!['<', '/']),
{
    lemma_json_chars_no_close(s);
    let out = json_chars(s);
    let all = json_string(s);
    let close = seq!['<', '/'];
    assert forall|i: int| !text::occurs_at(all, close, i) by {
        if text::occurs_at(all, close, i) {
            let found = all.subrange(i, i + 2);
            assert(found[0] == all[i] && found[1] == all[i + 1]);
            assert(close[0] == '<' && close[1] == '/');
            assert(out[i - 1] == '<' && out[i] == '/');
        }
    }
}

proof fn lemma_json_chars_no_close(s: Seq<char>)
    ensures
        forall|i: int|
            0 <= i < json_chars(s).len() - 1 && #[trigger] json_chars(s)[i] == '<' ==> json_chars(
                s,
            )[i + 1] != '/',
        json_chars(s).len() > 0 && json_chars(s)[0] == '/' ==> s.len() > 0 && s[0] == '/',
    decreases s.len(),
{
    let out = json_chars(s);
    if s.len() > 0 {
        if s.len() > 1 && s[0] == '<' && s[1] == '/' {
            let rest = json_chars(s.skip(2));
            lemma_json_chars_no_close(s.skip(2));
            assert(out =~= seq!['<', '\\', '/'] + rest);
            assert forall|i: int| 0 <= i < out.len() - 1 && #[trigger] out[i] == '<' implies out[i
                + 1] != '/' by {
                if i >= 3 {
                    assert(rest[i - 3] == '<');
                }
            }
        } else {
            let rest = json_chars(s.drop_first());
            let head = json_char(s[0]);
            lemma_json_chars_no_close(s.drop_first());
            assert(out =~= head + rest);
            if ' ' > s[0] {
                number::lemma_control_digits(s[0]);
            }
            assert forall|i: int| 0 <= i < out.len() - 1 && #[trigger] out[i] == '<' implies out[i
                + 1] != '/' by {
                if i >= head.len() {
                    assert(rest[i - head.len()] == '<');
                } else {
                    assert(head[i] == '<');
                    assert(s[0] == '<');
                    if out[i + 1] == '/' {
                        assert(rest[0] == '/');
                        assert(s.drop_first()[0] == s[1]);
                    }
                }
            }
        }
    }
}

} // verus!
