//! Character classes used by the lexer.
use vstd::prelude::*;
use vstd::string::*;

verus! {

/// Letters that may appear in identifiers: ASCII letters and `_`.
pub open spec fn letter(c: char) -> bool {
    ('a' <= c && c <= 'z') || ('A' <= c && c <= 'Z') || c == '_'
}

/// Decimal digits.
pub open spec fn digit(c: char) -> bool {
    '0' <= c && c <= '9'
}

/// Whether `c` is a letter (see `letter`).
pub fn is_letter_char(c: char) -> (r: bool)
    ensures
        r == letter(c),
{
    ('a' <= c && c <= 'z') || ('A' <= c && c <= 'Z') || c == '_'
}

/// Whether `c` is a decimal digit.
pub fn is_digit_char(c: char) -> (r: bool)
    ensures
        r == digit(c),
{
    '0' <= c && c <= '9'
}

/// Whether the first character of `ch` is a letter; `false` for the empty string.
pub fn is_letter(ch: &str) -> (r: bool)
    ensures
        r == (ch@.len() > 0 && letter(ch@[0])),
{
    if ch.unicode_len() == 0 {
        false
    } else {
        is_letter_char(ch.get_char(0))
    }
}

/// Whether the first character of `ch` is a decimal digit; `false` for the empty string.
pub fn is_digit(ch: &str) -> (r: bool)
    ensures
        r == (ch@.len() > 0 && digit(ch@[0])),
{
    if ch.unicode_len() == 0 {
        false
    } else {
        is_digit_char(ch.get_char(0))
    }
}

/// The character of a decimal digit.
pub open spec fn digit_char(d: int) -> char {
    if d == 0 {
        '0'
    } else if d == 1 {
        '1'
    } else if d == 2 {
        '2'
    } else if d == 3 {
        '3'
    } else if d == 4 {
        '4'
    } else if d == 5 {
        '5'
    } else if d == 6 {
        '6'
    } else if d == 7 {
        '7'
    } else if d == 8 {
        '8'
    } else {
        '9'
    }
}

/// The decimal digits of a natural number, without leading zeros.
pub open spec fn nat_str(n: nat) -> Seq<char>
    decreases n,
{
    if n < 10 {
        seq![digit_char(n as int)]
    } else {
        nat_str(n / 10).push(digit_char((n % 10) as int))
    }
}

/// The decimal representation of an integer, with a leading `-` when negative.
pub open spec fn int_str(v: int) -> Seq<char> {
    if v < 0 {
        seq!['-'] + nat_str((-v) as nat)
    } else {
        nat_str(v as nat)
    }
}

/// The text of a boolean.
pub open spec fn bool_str(b: bool) -> Seq<char> {
    if b {
        "true"@
    } else {
        "false"@
    }
}

/// Appends one character to a string (`String::push`).
#[verifier::external_body]
pub(crate) fn string_push(s: &mut String, c: char)
    ensures
        final(s)@ == old(s)@.push(c),
{
    s.push(c);
}

fn digit_to_char(d: u64) -> (c: char)
    requires
        d < 10,
    ensures
        c == digit_char(d as int),
{
    if d == 0 {
        '0'
    } else if d == 1 {
        '1'
    } else if d == 2 {
        '2'
    } else if d == 3 {
        '3'
    } else if d == 4 {
        '4'
    } else if d == 5 {
        '5'
    } else if d == 6 {
        '6'
    } else if d == 7 {
        '7'
    } else if d == 8 {
        '8'
    } else {
        '9'
    }
}

/// Appends the decimal digits of `n`.
pub fn push_nat(s: &mut String, n: u64)
    ensures
        final(s)@ == old(s)@ + nat_str(n as nat),
    decreases n,
{
    if n >= 10 {
        push_nat(s, n / 10);
    }
    string_push(s, digit_to_char(n % 10));
    assert(final(s)@ =~= old(s)@ + nat_str(n as nat));
}

/// Appends the decimal representation of `v`.
pub fn push_int(s: &mut String, v: i64)
    ensures
        final(s)@ == old(s)@ + int_str(v as int),
{
    if v < 0 {
        string_push(s, '-');
        let m: u64 = if v == i64::MIN {
            9223372036854775808u64
        } else {
            (-v) as u64
        };
        push_nat(s, m);
        assert(final(s)@ =~= old(s)@ + int_str(v as int));
    } else {
        push_nat(s, v as u64);
    }
}

/// The decimal representation of `v` (`i64::to_string`).
pub fn int_to_string(v: i64) -> (r: String)
    ensures
        r@ == int_str(v as int),
{
    let mut s = String::new();
    push_int(&mut s, v);
    assert(s@ =~= int_str(v as int));
    s
}

/// The text of a boolean (`bool::to_string`).
pub fn bool_to_string(b: bool) -> (r: String)
    ensures
        r@ == bool_str(b),
{
    if b {
        String::from_str("true")
    } else {
        String::from_str("false")
    }
}

} // verus!
