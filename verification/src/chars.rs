//! Code point classes of CSS Syntax §4.2.

use vstd::prelude::*;

verus! {

/// ASCII digit `0`-`9`.
pub open spec fn spec_is_digit(c: char) -> bool {
    '0' <= c && c <= '9'
}

/// ASCII hex digit `0`-`9`, `a`-`f`, `A`-`F`.
pub open spec fn spec_is_hex_digit(c: char) -> bool {
    ('0' <= c && c <= '9') || ('a' <= c && c <= 'f') || ('A' <= c && c <= 'F')
}

/// Ident-start code point: ASCII letter, `_`, or a code point at or above U+0080.
pub open spec fn spec_is_ident_start(c: char) -> bool {
    ('A' <= c && c <= 'Z') || ('a' <= c && c <= 'z') || c == '_' || '\u{80}' <= c
}

/// Ident code point: ident-start code point, digit, or `-`.
pub open spec fn spec_is_ident_char(c: char) -> bool {
    spec_is_ident_start(c) || spec_is_digit(c) || c == '-'
}

/// Whitespace: tab, line feed, form feed, carriage return, space.
pub open spec fn spec_is_whitespace(c: char) -> bool {
    c == '\t' || c == '\n' || c == '\u{0C}' || c == '\r' || c == ' '
}

/// Non-printable code point: U+0000-U+0008, U+000B, U+000E-U+001F, U+007F-U+009F.
pub open spec fn spec_is_non_printable(c: char) -> bool {
    c <= '\u{08}' || c == '\u{0B}' || ('\u{0E}' <= c && c <= '\u{1F}') || ('\u{7F}' <= c && c
        <= '\u{9F}')
}

/// The value of a hex digit (0 for any other code point).
pub open spec fn hex_digit_value(c: char) -> nat {
    if '0' <= c && c <= '9' {
        (c as int - '0' as int) as nat
    } else if 'a' <= c && c <= 'f' {
        (c as int - 'a' as int + 10) as nat
    } else if 'A' <= c && c <= 'F' {
        (c as int - 'A' as int + 10) as nat
    } else {
        0
    }
}

pub fn is_ident_start_code_point(c: char) -> (r: bool)
    ensures
        r == spec_is_ident_start(c),
{
    ('A' <= c && c <= 'Z') || ('a' <= c && c <= 'z') || c == '_' || '\u{80}' <= c
}

pub fn is_ident_code_point(c: char) -> (r: bool)
    ensures
        r == spec_is_ident_char(c),
{
    ('A' <= c && c <= 'Z') || ('a' <= c && c <= 'z') || ('0' <= c && c <= '9') || c == '_' || c
        == '-' || '\u{80}' <= c
}

pub fn is_digit(c: char) -> (r: bool)
    ensures
        r == spec_is_digit(c),
{
    '0' <= c && c <= '9'
}

pub fn is_hex_digit(c: char) -> (r: bool)
    ensures
        r == spec_is_hex_digit(c),
{
    ('0' <= c && c <= '9') || ('a' <= c && c <= 'f') || ('A' <= c && c <= 'F')
}

pub fn is_whitespace(c: char) -> (r: bool)
    ensures
        r == spec_is_whitespace(c),
{
    c == '\t' || c == '\n' || c == '\u{0C}' || c == '\r' || c == ' '
}

pub fn is_non_printable(c: char) -> (r: bool)
    ensures
        r == spec_is_non_printable(c),
{
    c <= '\u{08}' || c == '\u{0B}' || ('\u{0E}' <= c && c <= '\u{1F}') || ('\u{7F}' <= c && c
        <= '\u{9F}')
}

/// The value of a hex digit.
pub fn hex_value_of(c: char) -> (r: u32)
    requires
        spec_is_hex_digit(c),
    ensures
        r == hex_digit_value(c),
        r < 16,
{
    if '0' <= c && c <= '9' {
        (c as u32) - ('0' as u32)
    } else if 'a' <= c && c <= 'f' {
        (c as u32) - ('a' as u32) + 10
    } else {
        (c as u32) - ('A' as u32) + 10
    }
}

} // verus!
