//! Numbers as text, and hexadecimal digits.

use vstd::prelude::*;

verus! {

/// The decimal digit of `d`.
pub open spec fn digit(d: int) -> char {
    (48 + d) as char
}

/// The decimal digits of `n`, without leading zeros.
pub open spec fn decimal(n: nat) -> Seq<char>
    decreases n,
{
    if n < 10 {
        seq![digit(n as int)]
    } else {
        decimal(n / 10).push(digit((n % 10) as int))
    }
}

/// The decimal digits of `n`, after a minus sign where it is negative.
pub open spec fn signed_decimal(n: int) -> Seq<char> {
    if n < 0 {
        seq!['-'] + decimal((-n) as nat)
    } else {
        decimal(n as nat)
    }
}

/// Writes `n` in decimal.
pub fn decimal_text(n: u64) -> (r: String)
    ensures
        r@ == decimal(n as nat),
    decreases n,
{
    let mut out = if n < 10 {
        String::new()
    } else {
        decimal_text(n / 10)
    };
    let d: u8 = (n % 10) as u8;
    out.push((48 + d) as char);
    assert(n < 10 ==> out@ =~= seq![digit(n as int)]);
    out
}

/// Writes a count in decimal.
pub fn count_text(n: usize) -> (r: String)
    ensures
        r@ == decimal(n as nat),
{
    decimal_text(n as u64)
}

/// Writes `n` in decimal, with its sign where it is negative.
pub fn signed_text(n: i64) -> (r: String)
    ensures
        r@ == signed_decimal(n as int),
{
    if n < 0 {
        let mut out = String::new();
        out.push('-');
        let magnitude: u64 = if n == i64::MIN {
            9_223_372_036_854_775_808u64
        } else {
            (-n) as u64
        };
        let digits = decimal_text(magnitude);
        out.append(digits.as_str());
        assert(out@ =~= seq!['-'] + digits@);
        out
    } else {
        decimal_text(n as u64)
    }
}

/// The upper-case hexadecimal digit of `d`.
pub open spec fn hex_upper(d: int) -> char {
    if d < 10 {
        (48 + d) as char
    } else {
        (55 + d) as char
    }
}

/// The lower-case hexadecimal digit of `d`.
pub open spec fn hex_lower(d: int) -> char {
    if d < 10 {
        (48 + d) as char
    } else {
        (87 + d) as char
    }
}

/// The two upper-case hexadecimal digits of a byte.
pub open spec fn hex_byte(b: u8) -> Seq<char> {
    seq![hex_upper((b / 16) as int), hex_upper((b % 16) as int)]
}

/// The upper-case hexadecimal digit of `d`.
pub fn hex_upper_digit(d: u8) -> (r: char)
    requires
        d < 16,
    ensures
        r == hex_upper(d as int),
{
    if d < 10 {
        (48 + d) as char
    } else {
        (55 + d) as char
    }
}

/// The lower-case hexadecimal digit of `d`.
pub fn hex_lower_digit(d: u8) -> (r: char)
    requires
        d < 16,
    ensures
        r == hex_lower(d as int),
{
    if d < 10 {
        (48 + d) as char
    } else {
        (87 + d) as char
    }
}

/// Appends the two upper-case hexadecimal digits of `b`.
pub fn push_hex_byte(out: &mut String, b: u8)
    ensures
        final(out)@ == old(out)@ + hex_byte(b),
{
    out.push(hex_upper_digit(b / 16));
    out.push(hex_upper_digit(b % 16));
    assert(out@ =~= old(out)@ + hex_byte(b));
}

/// The value of a hexadecimal digit of either case.
pub open spec fn hex_digit_value(c: char) -> Option<int> {
    if '0' <= c <= '9' {
        Some(c as int - 48)
    } else if 'a' <= c <= 'f' {
        Some(c as int - 87)
    } else if 'A' <= c <= 'F' {
        Some(c as int - 55)
    } else {
        None
    }
}

/// The value of a hexadecimal digit of either case.
pub fn hex_value(c: char) -> (r: Option<u8>)
    ensures
        r is Some == hex_digit_value(c) is Some,
        r matches Some(d) ==> d < 16 && hex_digit_value(c) == Some(d as int),
{
    let n: u32 = c as u32;
    if '0' <= c && c <= '9' {
        Some((n - 48) as u8)
    } else if 'a' <= c && c <= 'f' {
        Some((n - 87) as u8)
    } else if 'A' <= c && c <= 'F' {
        Some((n - 55) as u8)
    } else {
        None
    }
}

/// A lower-case digit gives back its value, and is a digit or a letter.
pub proof fn lemma_hex_lower_value(d: int)
    requires
        0 <= d < 16,
    ensures
        hex_digit_value(hex_lower(d)) == Some(d),
        '0' <= hex_lower(d) <= '9' || 'a' <= hex_lower(d) <= 'f',
{
}

/// The two digits of a control character give back its code.
pub proof fn lemma_control_digits(c: char)
    requires
        ' ' > c,
    ensures
        0 <= c as int / 16 < 2,
        hex_digit_value(hex_lower(c as int / 16)) == Some(c as int / 16),
        hex_digit_value(hex_lower(c as int % 16)) == Some(c as int % 16),
        hex_lower(c as int / 16) != '<' && hex_lower(c as int / 16) != '/',
        hex_lower(c as int % 16) != '<' && hex_lower(c as int % 16) != '/',
{
    lemma_hex_lower_value(c as int / 16);
    lemma_hex_lower_value(c as int % 16);
}

/// A byte's digits give back its value.
pub proof fn lemma_hex_byte_value(b: u8)
    ensures
        hex_digit_value(hex_byte(b)[0]) == Some((b / 16) as int),
        hex_digit_value(hex_byte(b)[1]) == Some((b % 16) as int),
{
}

} // verus!
