//! Percent encoding of ref names for URLs, and decoding of query values.

use vstd::prelude::*;

use crate::number;
use crate::number::{hex_value, push_hex_byte};

verus! {

/// The characters that a URL carries as they are.
pub open spec fn unreserved(c: char) -> bool {
    ||| 'A' <= c <= 'Z'
    ||| 'a' <= c <= 'z'
    ||| '0' <= c <= '9'
    ||| c == '-'
    ||| c == '_'
    ||| c == '.'
    ||| c == '~'
}

/// What stands for one byte.
pub open spec fn url_byte(b: u8) -> Seq<char> {
    if unreserved(b as char) {
        seq![b as char]
    } else {
        seq!['%'] + number::hex_byte(b)
    }
}

/// The percent encoding of a sequence of bytes.
pub open spec fn url_encoded(bytes: Seq<u8>) -> Seq<char>
    decreases bytes.len(),
{
    if bytes.len() == 0 {
        seq![]
    } else {
        url_byte(bytes[0]) + url_encoded(bytes.drop_first())
    }
}

/// Encodes a ref name for use in a URL: every byte of its UTF-8 form that is not unreserved is
/// written as a percent sign and two hexadecimal digits.
pub fn url_encode_ref(r: &str) -> (out: String)
    ensures
        out@ == url_encoded(vstd::utf8::encode_utf8(r@)),
{
    let bytes = r.as_bytes();
    let mut out = String::new();
    let mut i: usize = 0;
    assert(bytes@.skip(0) =~= bytes@);
    assert(out@ + url_encoded(bytes@) =~= url_encoded(bytes@));
    while i < bytes.len()
        invariant
            i <= bytes@.len(),
            url_encoded(bytes@) == out@ + url_encoded(bytes@.skip(i as int)),
        decreases bytes@.len() - i,
    {
        let ghost before = out@;
        let b = bytes[i];
        let c = b as char;
        if ('A' <= c && c <= 'Z') || ('a' <= c && c <= 'z') || ('0' <= c && c <= '9') || c == '-'
            || c == '_' || c == '.' || c == '~' {
            out.push(c);
        } else {
            out.push('%');
            push_hex_byte(&mut out, b);
        }
        assert(out@ =~= before + url_byte(b));
        assert(bytes@.skip(i as int).drop_first() =~= bytes@.skip(i + 1));
        i = i + 1;
        assert(out@ + url_encoded(bytes@.skip(i as int)) =~= before + (url_byte(b) + url_encoded(
            bytes@.skip(i as int),
        )));
    }
    assert(out@ + url_encoded(bytes@.skip(i as int)) =~= out@);
    out
}

/// Whether `b` begins with a percent sign and two hexadecimal digits.
pub open spec fn escaped_byte(b: Seq<u8>) -> bool {
    &&& b.len() > 2
    &&& b[0] as char == '%'
    &&& number::hex_digit_value(b[1] as char) is Some
    &&& number::hex_digit_value(b[2] as char) is Some
}

/// The value of two hexadecimal digits.
pub open spec fn escaped_value(b: Seq<u8>) -> int {
    number::hex_digit_value(b[1] as char).unwrap() * 16 + number::hex_digit_value(
        b[2] as char,
    ).unwrap()
}

/// The characters that percent-encoded bytes stand for. Each byte gives the character of the same
/// code, an escape sequence the character of its value, and a plus sign a space.
pub open spec fn percent_decoded(b: Seq<u8>) -> Seq<char>
    decreases b.len(),
{
    if b.len() == 0 {
        seq![]
    } else if escaped_byte(b) {
        seq![escaped_value(b) as char] + percent_decoded(b.skip(3))
    } else if b[0] as char == '+' {
        seq![' '] + percent_decoded(b.drop_first())
    } else {
        seq![b[0] as char] + percent_decoded(b.drop_first())
    }
}

/// Decodes a query value.
pub fn percent_decode(s: &str) -> (r: String)
    ensures
        r@ == percent_decoded(vstd::utf8::encode_utf8(s@)),
{
    let bytes = s.as_bytes();
    let mut out = String::new();
    let mut i: usize = 0;
    assert(bytes@.skip(0) =~= bytes@);
    assert(out@ + percent_decoded(bytes@) =~= percent_decoded(bytes@));
    while i < bytes.len()
        invariant
            i <= bytes@.len(),
            percent_decoded(bytes@) == out@ + percent_decoded(bytes@.skip(i as int)),
        decreases bytes@.len() - i,
    {
        let ghost before = out@;
        let ghost rest = bytes@.skip(i as int);
        let mut value: Option<u8> = None;
        if bytes[i] as char == '%' && bytes.len() - i > 2 {
            assert(rest[1] == bytes@[i + 1] && rest[2] == bytes@[i + 2]);
            match (hex_value(bytes[i + 1] as char), hex_value(bytes[i + 2] as char)) {
                (Some(h), Some(l)) => {
                    value = Some(h * 16 + l);
                },
                _ => {},
            }
        }
        match value {
            Some(b) => {
                out.push(b as char);
                assert(rest.skip(3) =~= bytes@.skip(i + 3));
                i = i + 3;
                assert(out@ + percent_decoded(bytes@.skip(i as int)) =~= before + (seq![b as char]
                    + percent_decoded(bytes@.skip(i as int))));
            },
            None => {
                let c = if bytes[i] as char == '+' {
                    ' '
                } else {
                    bytes[i] as char
                };
                out.push(c);
                assert(rest.drop_first() =~= bytes@.skip(i + 1));
                i = i + 1;
                assert(out@ + percent_decoded(bytes@.skip(i as int)) =~= before + (seq![c]
                    + percent_decoded(bytes@.skip(i as int))));
            },
        }
    }
    assert(out@ + percent_decoded(bytes@.skip(i as int)) =~= out@);
    out
}

/// Each byte as the character of the same code.
pub open spec fn byte_chars(b: Seq<u8>) -> Seq<char> {
    Seq::new(b.len(), |i: int| b[i] as char)
}

/// Each character of an ASCII text as a byte.
pub open spec fn ascii_bytes(s: Seq<char>) -> Seq<u8> {
    Seq::new(s.len(), |i: int| s[i] as u8)
}

/// An encoded ref holds only ASCII characters, none of which ends a query value or a path.
pub proof fn law_encoded_ref_is_plain(bytes: Seq<u8>)
    ensures
        vstd::utf8::is_ascii_chars(url_encoded(bytes)),
        forall|i: int|
            0 <= i < url_encoded(bytes).len() ==> (#[trigger] url_encoded(bytes)[i] == '%'
                || unreserved(url_encoded(bytes)[i])),
    decreases bytes.len(),
{
    if bytes.len() > 0 {
        let head = url_byte(bytes[0]);
        let tail = url_encoded(bytes.drop_first());
        law_encoded_ref_is_plain(bytes.drop_first());
        lemma_url_byte(bytes[0]);
        assert forall|i: int| 0 <= i < url_encoded(bytes).len() implies '\0' <= #[trigger] url_encoded(
            bytes,
        )[i] <= '\u{7f}' && (url_encoded(bytes)[i] == '%' || unreserved(
            url_encoded(bytes)[i],
        )) by {
            if i < head.len() {
                assert(url_encoded(bytes)[i] == head[i]);
            } else {
                assert(url_encoded(bytes)[i] == tail[i - head.len()]);
            }
        }
    }
}

proof fn lemma_url_byte(b: u8)
    ensures
        forall|i: int|
            0 <= i < url_byte(b).len() ==> '\0' <= #[trigger] url_byte(b)[i] <= '\u{7f}' && (
            url_byte(b)[i] == '%' || unreserved(url_byte(b)[i])),
        unreserved(b as char) ==> b as char != '%' && b as char != '+' && b < 128,
{
    number::lemma_hex_byte_value(b);
}

/// Decoding an encoded ref gives back its bytes, one character for each.
pub proof fn law_decode_undoes_encode(bytes: Seq<u8>)
    ensures
        percent_decoded(vstd::utf8::encode_utf8(url_encoded(bytes))) == byte_chars(bytes),
{
    law_encoded_ref_is_plain(bytes);
    let out = url_encoded(bytes);
    vstd::utf8::is_ascii_chars_encode_utf8(out);
    assert(vstd::utf8::encode_utf8(out) =~= ascii_bytes(out));
    lemma_decode_ascii(bytes);
}

/// Decoding the encoded form of an ASCII ref gives the ref back.
pub proof fn law_ascii_ref_survives_the_url(r: Seq<char>)
    requires
        vstd::utf8::is_ascii_chars(r),
    ensures
        percent_decoded(
            vstd::utf8::encode_utf8(url_encoded(vstd::utf8::encode_utf8(r))),
        ) == r,
{
    let bytes = vstd::utf8::encode_utf8(r);
    law_decode_undoes_encode(bytes);
    vstd::utf8::is_ascii_chars_encode_utf8(r);
    assert forall|i: int| 0 <= i < r.len() implies byte_chars(bytes)[i] == r[i] by {
        lemma_ascii_round_trip(r[i]);
    }
    assert(byte_chars(bytes) =~= r);
}

proof fn lemma_ascii_round_trip(c: char)
    requires
        '\0' <= c <= '\u{7f}',
    ensures
        (c as u8) as char == c,
{
}

proof fn lemma_byte_round_trip(b: u8)
    requires
        b < 128,
    ensures
        (b as char) as u8 == b,
{
}

proof fn lemma_decode_ascii(bytes: Seq<u8>)
    ensures
        percent_decoded(ascii_bytes(url_encoded(bytes))) == byte_chars(bytes),
    decreases bytes.len(),
{
    let out = ascii_bytes(url_encoded(bytes));
    if bytes.len() == 0 {
        assert(out =~= seq![]);
        assert(percent_decoded(out) =~= byte_chars(bytes));
    } else {
        let b = bytes[0];
        let rest = ascii_bytes(url_encoded(bytes.drop_first()));
        lemma_decode_ascii(bytes.drop_first());
        lemma_url_byte(b);
        if unreserved(b as char) {
            lemma_byte_round_trip(b);
            assert(out[0] == b);
            assert(out.drop_first() =~= rest);
            assert(percent_decoded(out) =~= byte_chars(bytes));
        } else {
            number::lemma_hex_byte_value(b);
            let hex = number::hex_byte(b);
            lemma_ascii_round_trip(hex[0]);
            lemma_ascii_round_trip(hex[1]);
            assert(url_byte(b)[1] == hex[0] && url_byte(b)[2] == hex[1]);
            assert(out[0] as char == '%');
            assert(out[1] as char == hex[0]);
            assert(out[2] as char == hex[1]);
            assert(escaped_byte(out));
            assert(escaped_value(out) == b as int);
            assert(out.skip(3) =~= rest);
            assert(percent_decoded(out) =~= byte_chars(bytes));
        }
    }
}

} // verus!
