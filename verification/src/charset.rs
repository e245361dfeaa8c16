//! The classes of characters that names and patterns are checked against.

use vstd::prelude::*;

use crate::text::chars_of;

verus! {

/// Whether Unicode counts `c` as alphabetic or numeric, as `char::is_alphanumeric` says.
pub uninterp spec fn unicode_alphanumeric(c: char) -> bool;

/// `char::is_alphanumeric`: whether the character has one of the general categories for
/// alphabetic or numeric characters, which is a property of the character alone.
#[verifier::external_body]
fn std_alphanumeric(c: char) -> (r: bool)
    ensures
        r == unicode_alphanumeric(c),
{
    c.is_alphanumeric()
}

/// The letters and digits of ASCII.
pub open spec fn ascii_alphanumeric(c: char) -> bool {
    'a' <= c <= 'z' || 'A' <= c <= 'Z' || '0' <= c <= '9'
}

/// Letters and digits of any script.
pub open spec fn alphanumeric(c: char) -> bool {
    if c <= '\u{7f}' {
        ascii_alphanumeric(c)
    } else {
        unicode_alphanumeric(c)
    }
}

/// Whether `c` is a letter or a digit.
pub fn is_alphanumeric(c: char) -> (r: bool)
    ensures
        r == alphanumeric(c),
{
    if c <= '\u{7f}' {
        ('a' <= c && c <= 'z') || ('A' <= c && c <= 'Z') || ('0' <= c && c <= '9')
    } else {
        std_alphanumeric(c)
    }
}

/// The digits of hexadecimal numbers, in either case.
pub open spec fn hex_digit(c: char) -> bool {
    '0' <= c <= '9' || 'a' <= c <= 'f' || 'A' <= c <= 'F'
}

/// What a ref name may hold.
pub open spec fn ref_name_char(c: char) -> bool {
    alphanumeric(c) || c == '-' || c == '_' || c == '.' || c == '/' || c == '@' || c == '~'
}

/// What a path pattern may hold.
pub open spec fn pathspec_char(c: char) -> bool {
    alphanumeric(c) || c == '*' || c == '?' || c == '.' || c == '/' || c == '-' || c == '_' || c
        == '[' || c == ']'
}

/// What a file name keeps of a commit's name.
pub open spec fn file_name_char(c: char) -> bool {
    alphanumeric(c) || c == '-' || c == '_' || c == '.'
}

/// A ref name that is handed to git: not empty, of at most 256 bytes, and without a character
/// outside those of ref names.
pub open spec fn valid_ref_name(s: Seq<char>) -> bool {
    &&& s.len() > 0
    &&& vstd::utf8::encode_utf8(s).len() <= 256
    &&& forall|i: int| 0 <= i < s.len() ==> ref_name_char(#[trigger] s[i])
}

/// A hash that is handed to git: seven to forty hexadecimal digits.
pub open spec fn valid_sha(s: Seq<char>) -> bool {
    &&& 7 <= s.len() <= 40
    &&& forall|i: int| 0 <= i < s.len() ==> hex_digit(#[trigger] s[i])
}

/// A path pattern that is handed to git: not empty, of at most 200 bytes, and without a character
/// outside those of patterns.
pub open spec fn valid_pathspec(s: Seq<char>) -> bool {
    &&& s.len() > 0
    &&& vstd::utf8::encode_utf8(s).len() <= 200
    &&& forall|i: int| 0 <= i < s.len() ==> pathspec_char(#[trigger] s[i])
}

/// Whether `s` may be handed to git as a ref name.
pub fn is_valid_ref_name(s: &str) -> (r: bool)
    ensures
        r == valid_ref_name(s@),
{
    let v = chars_of(s);
    if v.len() == 0 || s.as_bytes().len() > 256 {
        return false;
    }
    let mut i: usize = 0;
    while i < v.len()
        invariant
            v@ == s@,
            i <= v@.len(),
            forall|j: int| 0 <= j < i ==> ref_name_char(#[trigger] s@[j]),
        decreases v@.len() - i,
    {
        let c = v[i];
        if !(is_alphanumeric(c) || c == '-' || c == '_' || c == '.' || c == '/' || c == '@' || c
            == '~') {
            assert(!ref_name_char(s@[i as int]));
            return false;
        }
        i = i + 1;
    }
    true
}

/// Whether `s` may be handed to git as a hash.
pub fn is_valid_sha(s: &str) -> (r: bool)
    ensures
        r == valid_sha(s@),
{
    let v = chars_of(s);
    if v.len() < 7 || v.len() > 40 {
        return false;
    }
    let mut i: usize = 0;
    while i < v.len()
        invariant
            v@ == s@,
            i <= v@.len(),
            forall|j: int| 0 <= j < i ==> hex_digit(#[trigger] s@[j]),
        decreases v@.len() - i,
    {
        let c = v[i];
        if !(('0' <= c && c <= '9') || ('a' <= c && c <= 'f') || ('A' <= c && c <= 'F')) {
            assert(!hex_digit(s@[i as int]));
            return false;
        }
        i = i + 1;
    }
    true
}

/// Whether `s` may be handed to git as a path pattern.
pub fn is_valid_pathspec(s: &str) -> (r: bool)
    ensures
        r == valid_pathspec(s@),
{
    let v = chars_of(s);
    if v.len() == 0 || s.as_bytes().len() > 200 {
        return false;
    }
    let mut i: usize = 0;
    while i < v.len()
        invariant
            v@ == s@,
            i <= v@.len(),
            forall|j: int| 0 <= j < i ==> pathspec_char(#[trigger] s@[j]),
        decreases v@.len() - i,
    {
        let c = v[i];
        if !(is_alphanumeric(c) || c == '*' || c == '?' || c == '.' || c == '/' || c == '-' || c
            == '_' || c == '[' || c == ']') {
            assert(!pathspec_char(s@[i as int]));
            return false;
        }
        i = i + 1;
    }
    true
}

/// Every hash that is accepted is accepted as a ref name too.
pub proof fn law_sha_is_a_ref_name(s: Seq<char>)
    requires
        valid_sha(s),
    ensures
        valid_ref_name(s),
        vstd::utf8::is_ascii_chars(s),
{
    assert forall|i: int| 0 <= i < s.len() implies '\0' <= #[trigger] s[i] <= '\u{7f}'
        && ref_name_char(s[i]) by {
        assert(hex_digit(s[i]));
    }
    vstd::utf8::is_ascii_chars_encode_utf8(s);
}

/// Of the texts in ASCII those of one to 256 characters are accepted as ref names that hold nothing
/// but letters, digits and `-_./@~`, and those of one to 200 characters as path patterns that hold
/// nothing but letters, digits and `*?./-_[]`.
pub proof fn law_ascii_names_and_patterns(s: Seq<char>)
    requires
        vstd::utf8::is_ascii_chars(s),
    ensures
        valid_ref_name(s) <==> 1 <= s.len() <= 256 && forall|i: int|
            0 <= i < s.len() ==> {
                let c = #[trigger] s[i];
                'a' <= c <= 'z' || 'A' <= c <= 'Z' || '0' <= c <= '9' || c == '-' || c == '_' || c
                    == '.' || c == '/' || c == '@' || c == '~'
            },
        valid_pathspec(s) <==> 1 <= s.len() <= 200 && forall|i: int|
            0 <= i < s.len() ==> {
                let c = #[trigger] s[i];
                'a' <= c <= 'z' || 'A' <= c <= 'Z' || '0' <= c <= '9' || c == '*' || c == '?' || c
                    == '.' || c == '/' || c == '-' || c == '_' || c == '[' || c == ']'
            },
{
    vstd::utf8::is_ascii_chars_encode_utf8(s);
    assert(forall|i: int| 0 <= i < s.len() ==> (#[trigger] s[i]) <= '\u{7f}');
}

} // verus!
