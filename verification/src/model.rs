//! The tokenization algorithms of CSS Syntax §4.3 as functions on the
//! preprocessed input `s` (a sequence of code points) and a position `p`.
//!
//! Each algorithm returns what it produces together with the position just
//! after the code points it consumed.

use vstd::prelude::*;
use crate::chars::{
    hex_digit_value, spec_is_digit, spec_is_hex_digit, spec_is_ident_char, spec_is_ident_start,
    spec_is_non_printable, spec_is_whitespace,
};
use crate::types::{HashType, NumericView, TokenView};

verus! {

/// The code point at index `i`, or `None` past either end.
pub open spec fn char_at(s: Seq<char>, i: int) -> Option<char> {
    if 0 <= i < s.len() {
        Some(s[i])
    } else {
        None
    }
}

pub open spec fn digit_at(s: Seq<char>, i: int) -> bool {
    0 <= i < s.len() && spec_is_digit(s[i])
}

pub open spec fn hex_at(s: Seq<char>, i: int) -> bool {
    0 <= i < s.len() && spec_is_hex_digit(s[i])
}

pub open spec fn ws_at(s: Seq<char>, i: int) -> bool {
    0 <= i < s.len() && spec_is_whitespace(s[i])
}

pub open spec fn ident_char_at(s: Seq<char>, i: int) -> bool {
    0 <= i < s.len() && spec_is_ident_char(s[i])
}

/// §4.3.8 for a `\` already consumed: the code point at `i` continues a
/// valid escape (it exists and is not a newline).
pub open spec fn escape_continues(s: Seq<char>, i: int) -> bool {
    0 <= i < s.len() && s[i] != '\n'
}

/// §4.3.8: the code points at `i` and `i + 1` are a valid escape.
pub open spec fn valid_escape_at(s: Seq<char>, i: int) -> bool {
    char_at(s, i) == Some('\\') && escape_continues(s, i + 1)
}

/// §4.3.9: the code points starting at `i` would start an ident sequence.
pub open spec fn starts_ident_at(s: Seq<char>, i: int) -> bool {
    match char_at(s, i) {
        None => false,
        Some(c) => if c == '-' {
            match char_at(s, i + 1) {
                None => false,
                Some(n) => if n == '-' {
                    true
                } else if spec_is_ident_start(n) {
                    true
                } else if n == '\\' {
                    valid_escape_at(s, i + 1)
                } else {
                    false
                },
            }
        } else if c == '\\' {
            valid_escape_at(s, i)
        } else {
            spec_is_ident_start(c)
        },
    }
}

/// §4.3.10: `first` (already consumed) followed by the code points at `p`
/// and `p + 1` would start a number.
pub open spec fn starts_number(first: char, s: Seq<char>, p: int) -> bool {
    if first == '+' || first == '-' {
        digit_at(s, p) || (char_at(s, p) == Some('.') && digit_at(s, p + 1))
    } else if first == '.' {
        digit_at(s, p)
    } else {
        spec_is_digit(first)
    }
}

/// §4.3.11: the code points starting at `i` would start a unicode-range.
pub open spec fn starts_unicode_range_at(s: Seq<char>, i: int) -> bool {
    (char_at(s, i) == Some('U') || char_at(s, i) == Some('u')) && char_at(s, i + 1) == Some('+')
        && (char_at(s, i + 2) == Some('?') || hex_at(s, i + 2))
}

/// The end of the run of digits starting at `p`.
pub open spec fn digit_run_end(s: Seq<char>, p: int) -> int
    decreases s.len() - p,
{
    if digit_at(s, p) {
        digit_run_end(s, p + 1)
    } else {
        p
    }
}

pub proof fn lemma_digit_run_bounds(s: Seq<char>, p: int)
    requires
        0 <= p <= s.len(),
    ensures
        p <= digit_run_end(s, p) <= s.len(),
        forall|j: int| p <= j < digit_run_end(s, p) ==> digit_at(s, j),
        !digit_at(s, digit_run_end(s, p)),
    decreases s.len() - p,
{
    if digit_at(s, p) {
        lemma_digit_run_bounds(s, p + 1);
    }
}

/// The end of the run of whitespace starting at `p`.
pub open spec fn ws_run_end(s: Seq<char>, p: int) -> int
    decreases s.len() - p,
{
    if ws_at(s, p) {
        ws_run_end(s, p + 1)
    } else {
        p
    }
}

pub proof fn lemma_ws_run_bounds(s: Seq<char>, p: int)
    requires
        0 <= p <= s.len(),
    ensures
        p <= ws_run_end(s, p) <= s.len(),
        forall|j: int| p <= j < ws_run_end(s, p) ==> ws_at(s, j),
        !ws_at(s, ws_run_end(s, p)),
    decreases s.len() - p,
{
    if ws_at(s, p) {
        lemma_ws_run_bounds(s, p + 1);
    }
}

/// The number of hex digits starting at `p`, at most `n`.
pub open spec fn hex_run(s: Seq<char>, p: int, n: nat) -> nat
    decreases n,
{
    if n > 0 && hex_at(s, p) {
        1 + hex_run(s, p + 1, (n - 1) as nat)
    } else {
        0
    }
}

/// The number of `?` starting at `p`, at most `n`.
pub open spec fn qmark_run(s: Seq<char>, p: int, n: nat) -> nat
    decreases n,
{
    if n > 0 && char_at(s, p) == Some('?') {
        1 + qmark_run(s, p + 1, (n - 1) as nat)
    } else {
        0
    }
}

/// The value of the hexadecimal numeral `d`, each `?` in it counting as the
/// digit `fill`.
pub open spec fn hex_value(d: Seq<char>, fill: nat) -> nat
    decreases d.len(),
{
    if d.len() == 0 {
        0
    } else {
        hex_value(d.drop_last(), fill) * 16 + if d.last() == '?' {
            fill
        } else {
            hex_digit_value(d.last())
        }
    }
}

/// The code point with value `v`, or U+FFFD when `v` is zero, a surrogate or
/// above U+10FFFF.
pub open spec fn code_point_or_replacement(v: nat) -> char {
    if v == 0 || v > 0x10FFFF || (0xD800 <= v && v <= 0xDFFF) {
        '\u{FFFD}'
    } else {
        v as char
    }
}

/// §4.3.7 Consume an escaped code point, the `\` having been consumed and
/// `p` being the position just after it.
pub open spec fn escaped_code_point(s: Seq<char>, p: int) -> (char, int) {
    if !(0 <= p < s.len()) {
        ('\u{FFFD}', p)
    } else if spec_is_hex_digit(s[p]) {
        let k = hex_run(s, p, 6);
        let e = p + k;
        let e2 = if char_at(s, e) == Some(' ') || char_at(s, e) == Some('\t') || char_at(s, e)
            == Some('\n') {
            e + 1
        } else {
            e
        };
        (code_point_or_replacement(hex_value(s.subrange(p, p + k), 0)), e2)
    } else if s[p] == '\n' {
        ('\\', p)
    } else {
        (s[p], p + 1)
    }
}

pub proof fn lemma_hex_run_bounds(s: Seq<char>, p: int, n: nat)
    requires
        0 <= p,
    ensures
        hex_run(s, p, n) <= n,
        p + hex_run(s, p, n) <= s.len() || hex_run(s, p, n) == 0,
        forall|j: int| p <= j < p + hex_run(s, p, n) ==> hex_at(s, j),
    decreases n,
{
    if n > 0 && hex_at(s, p) {
        lemma_hex_run_bounds(s, p + 1, (n - 1) as nat);
    }
}

pub proof fn lemma_qmark_run_bounds(s: Seq<char>, p: int, n: nat)
    requires
        0 <= p,
    ensures
        qmark_run(s, p, n) <= n,
        p + qmark_run(s, p, n) <= s.len() || qmark_run(s, p, n) == 0,
        forall|j: int| p <= j < p + qmark_run(s, p, n) ==> char_at(s, j) == Some('?'),
    decreases n,
{
    if n > 0 && char_at(s, p) == Some('?') {
        lemma_qmark_run_bounds(s, p + 1, (n - 1) as nat);
    }
}

pub proof fn lemma_escaped_bounds(s: Seq<char>, p: int)
    requires
        0 <= p <= s.len(),
    ensures
        p <= escaped_code_point(s, p).1 <= s.len(),
        escape_continues(s, p) ==> p < escaped_code_point(s, p).1,
{
    lemma_hex_run_bounds(s, p, 6);
}

/// §4.3.12 Consume an ident sequence starting at `p`.
pub open spec fn ident_seq(s: Seq<char>, p: int) -> (Seq<char>, int)
    decreases s.len() - p,
{
    if 0 <= p < s.len() {
        let c = s[p];
        if spec_is_ident_char(c) {
            let r = ident_seq(s, p + 1);
            (seq![c] + r.0, r.1)
        } else if c == '\\' && escape_continues(s, p + 1) {
            proof {
                lemma_escaped_bounds(s, p + 1);
            }
            let (v, e) = escaped_code_point(s, p + 1);
            let r = ident_seq(s, e);
            (seq![v] + r.0, r.1)
        } else {
            (Seq::empty(), p)
        }
    } else {
        (Seq::empty(), p)
    }
}

/// Prepends `c` to a string result; `None` (a bad string or url) stays `None`.
pub open spec fn prepend(c: char, r: (Option<Seq<char>>, int)) -> (Option<Seq<char>>, int) {
    match r.0 {
        Some(t) => (Some(seq![c] + t), r.1),
        None => (None, r.1),
    }
}

/// §4.3.5 Consume a string token, the opening `quote` having been consumed
/// and `p` being the position just after it. `None` stands for
/// `<bad-string-token>`.
pub open spec fn string_body(s: Seq<char>, p: int, quote: char) -> (Option<Seq<char>>, int)
    decreases s.len() - p,
{
    if !(0 <= p < s.len()) {
        (Some(Seq::empty()), p)
    } else {
        let c = s[p];
        if c == quote {
            (Some(Seq::empty()), p + 1)
        } else if c == '\n' {
            (None, p)
        } else if c == '\\' {
            if p + 1 >= s.len() {
                (Some(Seq::empty()), p + 1)
            } else if s[p + 1] == '\n' {
                string_body(s, p + 2, quote)
            } else {
                proof {
                    lemma_escaped_bounds(s, p + 1);
                }
                let (v, e) = escaped_code_point(s, p + 1);
                prepend(v, string_body(s, e, quote))
            }
        } else {
            prepend(c, string_body(s, p + 1, quote))
        }
    }
}

/// §4.3.2 Consume comments: the position just after the `*/` that closes the
/// comment whose body starts at `p`, or the end of the input.
pub open spec fn comment_end(s: Seq<char>, p: int) -> int
    decreases s.len() - p,
{
    if !(0 <= p < s.len()) {
        p
    } else if s[p] == '*' && char_at(s, p + 1) == Some('/') {
        p + 2
    } else {
        comment_end(s, p + 1)
    }
}

pub proof fn lemma_comment_end_bounds(s: Seq<char>, p: int)
    requires
        0 <= p <= s.len(),
    ensures
        p <= comment_end(s, p) <= s.len(),
    decreases s.len() - p,
{
    if 0 <= p < s.len() && !(s[p] == '*' && char_at(s, p + 1) == Some('/')) {
        lemma_comment_end_bounds(s, p + 1);
    }
}

/// §4.3.15 Consume the remnants of a bad url starting at `p`.
pub open spec fn bad_url_remnants(s: Seq<char>, p: int) -> int
    decreases s.len() - p,
{
    if !(0 <= p < s.len()) {
        p
    } else if s[p] == ')' {
        p + 1
    } else if s[p] == '\\' && escape_continues(s, p + 1) {
        proof {
            lemma_escaped_bounds(s, p + 1);
        }
        bad_url_remnants(s, escaped_code_point(s, p + 1).1)
    } else {
        bad_url_remnants(s, p + 1)
    }
}

/// The body of §4.3.6 after the leading whitespace: `None` stands for
/// `<bad-url-token>`.
pub open spec fn url_body(s: Seq<char>, p: int) -> (Option<Seq<char>>, int)
    decreases s.len() - p,
{
    if !(0 <= p < s.len()) {
        (Some(Seq::empty()), p)
    } else {
        let c = s[p];
        if c == ')' {
            (Some(Seq::empty()), p + 1)
        } else if spec_is_whitespace(c) {
            let r = ws_run_end(s, p + 1);
            if char_at(s, r) == Some(')') {
                (Some(Seq::empty()), r + 1)
            } else if r >= s.len() {
                (Some(Seq::empty()), r)
            } else {
                (None, bad_url_remnants(s, r))
            }
        } else if c == '"' || c == '\'' || c == '(' || spec_is_non_printable(c) {
            (None, bad_url_remnants(s, p + 1))
        } else if c == '\\' {
            if escape_continues(s, p + 1) {
                proof {
                    lemma_escaped_bounds(s, p + 1);
                }
                let (v, e) = escaped_code_point(s, p + 1);
                prepend(v, url_body(s, e))
            } else {
                (None, bad_url_remnants(s, p + 1))
            }
        } else {
            prepend(c, url_body(s, p + 1))
        }
    }
}

/// §4.3.6 Consume a url token, `url(` having been consumed.
pub open spec fn url_token(s: Seq<char>, p: int) -> (TokenView, int) {
    let r = url_body(s, ws_run_end(s, p));
    (
        match r.0 {
            Some(v) => TokenView::Url(v),
            None => TokenView::BadUrl,
        },
        r.1,
    )
}

/// The name is ASCII case-insensitively `url`.
pub open spec fn is_url_name(name: Seq<char>) -> bool {
    name.len() == 3 && (name[0] == 'u' || name[0] == 'U') && (name[1] == 'r' || name[1] == 'R')
        && (name[2] == 'l' || name[2] == 'L')
}

/// After `url(`: skips one whitespace code point while the next two are
/// whitespace.
pub open spec fn skip_ws_pairs(s: Seq<char>, p: int) -> int
    decreases s.len() - p,
{
    if ws_at(s, p) && ws_at(s, p + 1) {
        skip_ws_pairs(s, p + 1)
    } else {
        p
    }
}

pub open spec fn is_quote_at(s: Seq<char>, i: int) -> bool {
    char_at(s, i) == Some('"') || char_at(s, i) == Some('\'')
}

/// §4.3.4 Consume an ident-like token starting at `p`.
pub open spec fn ident_like(s: Seq<char>, p: int) -> (TokenView, int) {
    let (name, e) = ident_seq(s, p);
    if is_url_name(name) && char_at(s, e) == Some('(') {
        let q = skip_ws_pairs(s, e + 1);
        if is_quote_at(s, q) || (ws_at(s, q) && is_quote_at(s, q + 1)) {
            (TokenView::Function(name), q)
        } else {
            url_token(s, q)
        }
    } else if char_at(s, e) == Some('(') {
        (TokenView::Function(name), e + 1)
    } else {
        (TokenView::Ident(name), e)
    }
}

/// §4.3.1 `#` branch, `#` having been consumed.
pub open spec fn hash_token(s: Seq<char>, p: int) -> (TokenView, int) {
    if !ident_char_at(s, p) && !valid_escape_at(s, p) {
        (TokenView::Delim('#'), p)
    } else {
        let t = if starts_ident_at(s, p) {
            HashType::Id
        } else {
            HashType::Unrestricted
        };
        let (name, e) = ident_seq(s, p);
        (TokenView::Hash(name, t), e)
    }
}

/// §4.3.1 `@` branch, `@` having been consumed.
pub open spec fn at_keyword_token(s: Seq<char>, p: int) -> (TokenView, int) {
    if starts_ident_at(s, p) {
        let (name, e) = ident_seq(s, p);
        (TokenView::AtKeyword(name), e)
    } else {
        (TokenView::Delim('@'), p)
    }
}

pub open spec fn sign_at(s: Seq<char>, i: int) -> bool {
    char_at(s, i) == Some('+') || char_at(s, i) == Some('-')
}

/// §4.3.13: the end of the integer part (optional sign and digits).
pub open spec fn number_int_end(s: Seq<char>, p: int) -> int {
    digit_run_end(s, if sign_at(s, p) { p + 1 } else { p })
}

/// §4.3.13: whether a fraction follows the integer part ending at `e`.
pub open spec fn has_fraction(s: Seq<char>, e: int) -> bool {
    char_at(s, e) == Some('.') && digit_at(s, e + 1)
}

/// §4.3.13: the end of the integer and fraction parts.
pub open spec fn number_frac_end(s: Seq<char>, p: int) -> int {
    let e = number_int_end(s, p);
    if has_fraction(s, e) {
        digit_run_end(s, e + 1)
    } else {
        e
    }
}

/// §4.3.13: whether an exponent starts at `e`.
pub open spec fn has_exponent(s: Seq<char>, e: int) -> bool {
    (char_at(s, e) == Some('e') || char_at(s, e) == Some('E')) && ((sign_at(s, e + 1) && digit_at(
        s,
        e + 2,
    )) || digit_at(s, e + 1))
}

/// §4.3.13 Consume a number starting at `p`: the end of the number and
/// whether it is an integer.
pub open spec fn number_end(s: Seq<char>, p: int) -> (int, bool) {
    let f = number_frac_end(s, p);
    let frac = has_fraction(s, number_int_end(s, p));
    if has_exponent(s, f) {
        (digit_run_end(s, if sign_at(s, f + 1) { f + 2 } else { f + 1 }), false)
    } else {
        (f, !frac)
    }
}

/// §4.3.3 Consume a numeric token starting at `p`.
pub open spec fn numeric_token(s: Seq<char>, p: int) -> (TokenView, int) {
    let (e, is_integer) = number_end(s, p);
    let n = NumericView { repr: s.subrange(p, e), is_integer };
    if starts_ident_at(s, e) {
        let (unit, f) = ident_seq(s, e);
        (TokenView::Dimension(n, unit), f)
    } else if char_at(s, e) == Some('%') {
        (TokenView::Percentage(n), e + 1)
    } else {
        (TokenView::Number(n), e)
    }
}

/// §4.3.14 Consume a unicode-range token, `p` being the position of the `u`.
pub open spec fn unicode_range_token(s: Seq<char>, p: int) -> (TokenView, int) {
    let q = p + 2;
    let k1 = hex_run(s, q, 6);
    let k2 = qmark_run(s, q + k1, (6 - k1) as nat);
    let seg = s.subrange(q, q + k1 + k2);
    if k2 > 0 {
        (
            TokenView::UnicodeRange(
                Some(hex_value(seg, 0) as u32),
                Some(hex_value(seg, 15) as u32),
            ),
            q + k1 + k2,
        )
    } else {
        let start = hex_value(seg, 0) as u32;
        let r = q + k1;
        if char_at(s, r) == Some('-') && hex_at(s, r + 1) {
            let k3 = hex_run(s, r + 1, 6);
            (
                TokenView::UnicodeRange(
                    Some(start),
                    Some(hex_value(s.subrange(r + 1, r + 1 + k3), 0) as u32),
                ),
                r + 1 + k3,
            )
        } else {
            (TokenView::UnicodeRange(Some(start), Some(start)), r)
        }
    }
}

/// §4.3.1 after the code point `c` at `p` has been consumed (and it does not
/// open a comment).
pub open spec fn dispatch(s: Seq<char>, p: int, c: char, unicode_ranges_allowed: bool) -> (
    TokenView,
    int,
) {
    let q = p + 1;
    if spec_is_whitespace(c) {
        (TokenView::Whitespace, ws_run_end(s, q))
    } else if c == '"' || c == '\'' {
        let r = string_body(s, q, c);
        (
            match r.0 {
                Some(v) => TokenView::String(v),
                None => TokenView::BadString,
            },
            r.1,
        )
    } else if c == '#' {
        hash_token(s, q)
    } else if c == '(' {
        (TokenView::OpenParen, q)
    } else if c == ')' {
        (TokenView::CloseParen, q)
    } else if c == '-' {
        if starts_number(c, s, q) {
            numeric_token(s, p)
        } else if char_at(s, q) == Some('-') && char_at(s, q + 1) == Some('>') {
            (TokenView::Cdc, q + 2)
        } else if starts_ident_at(s, p) {
            ident_like(s, p)
        } else {
            (TokenView::Delim(c), q)
        }
    } else if c == '+' || c == '.' {
        if starts_number(c, s, q) {
            numeric_token(s, p)
        } else {
            (TokenView::Delim(c), q)
        }
    } else if c == '<' {
        if char_at(s, q) == Some('!') && char_at(s, q + 1) == Some('-') && char_at(s, q + 2)
            == Some('-') {
            (TokenView::Cdo, q + 3)
        } else {
            (TokenView::Delim(c), q)
        }
    } else if c == '@' {
        at_keyword_token(s, q)
    } else if c == '[' {
        (TokenView::OpenBracket, q)
    } else if c == '\\' {
        if escape_continues(s, q) {
            ident_like(s, p)
        } else {
            (TokenView::Delim('\\'), q)
        }
    } else if c == ']' {
        (TokenView::CloseBracket, q)
    } else if c == '{' {
        (TokenView::OpenBrace, q)
    } else if c == '}' {
        (TokenView::CloseBrace, q)
    } else if spec_is_digit(c) {
        numeric_token(s, p)
    } else if c == 'u' || c == 'U' {
        if unicode_ranges_allowed && starts_unicode_range_at(s, p) {
            unicode_range_token(s, p)
        } else {
            ident_like(s, p)
        }
    } else if spec_is_ident_start(c) {
        ident_like(s, p)
    } else if c == ':' {
        (TokenView::Colon, q)
    } else if c == ';' {
        (TokenView::Semicolon, q)
    } else if c == ',' {
        (TokenView::Comma, q)
    } else {
        (TokenView::Delim(c), q)
    }
}

/// §4.3.1 Consume a token starting at `p`: comments are skipped, and the end
/// of the input gives `<EOF-token>`.
pub open spec fn consume_token(s: Seq<char>, p: int, unicode_ranges_allowed: bool) -> (
    TokenView,
    int,
)
    decreases s.len() - p,
{
    if !(0 <= p < s.len()) {
        (TokenView::Eof, p)
    } else if s[p] == '/' && char_at(s, p + 1) == Some('*') {
        proof {
            lemma_comment_end_bounds(s, p + 2);
        }
        consume_token(s, comment_end(s, p + 2), unicode_ranges_allowed)
    } else {
        dispatch(s, p, s[p], unicode_ranges_allowed)
    }
}

} // verus!
