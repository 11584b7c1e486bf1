//! Bounds on how far each algorithm of the model consumes: every algorithm
//! stays within the input, and every token but `<EOF-token>` consumes at
//! least one code point.

use vstd::prelude::*;
use crate::chars::{spec_is_digit, spec_is_ident_char, spec_is_ident_start, spec_is_whitespace};
use crate::model::{
    bad_url_remnants, char_at, comment_end, consume_token, digit_at, dispatch, escape_continues,
    escaped_code_point, has_exponent, has_fraction, hex_at, hex_run, ident_char_at, ident_like,
    ident_seq, lemma_comment_end_bounds, lemma_digit_run_bounds, lemma_escaped_bounds,
    lemma_hex_run_bounds, lemma_qmark_run_bounds, lemma_ws_run_bounds, number_end, number_frac_end,
    number_int_end, numeric_token, sign_at, skip_ws_pairs, starts_unicode_range_at, string_body,
    unicode_range_token, url_body, valid_escape_at, ws_at, ws_run_end,
};
use crate::types::TokenView;

verus! {

pub proof fn lemma_ident_seq_bounds(s: Seq<char>, p: int)
    requires
        0 <= p <= s.len(),
    ensures
        p <= ident_seq(s, p).1 <= s.len(),
        ident_char_at(s, p) || valid_escape_at(s, p) ==> p < ident_seq(s, p).1,
    decreases s.len() - p,
{
    if 0 <= p < s.len() {
        let c = s[p];
        if spec_is_ident_char(c) {
            lemma_ident_seq_bounds(s, p + 1);
        } else if c == '\\' && escape_continues(s, p + 1) {
            lemma_escaped_bounds(s, p + 1);
            lemma_ident_seq_bounds(s, escaped_code_point(s, p + 1).1);
        }
    }
}

pub proof fn lemma_string_body_bounds(s: Seq<char>, p: int, quote: char)
    requires
        0 <= p <= s.len(),
    ensures
        p <= string_body(s, p, quote).1 <= s.len(),
    decreases s.len() - p,
{
    if 0 <= p < s.len() {
        let c = s[p];
        if c == quote || c == '\n' {
        } else if c == '\\' {
            if p + 1 >= s.len() {
            } else if s[p + 1] == '\n' {
                lemma_string_body_bounds(s, p + 2, quote);
            } else {
                lemma_escaped_bounds(s, p + 1);
                lemma_string_body_bounds(s, escaped_code_point(s, p + 1).1, quote);
            }
        } else {
            lemma_string_body_bounds(s, p + 1, quote);
        }
    }
}

pub proof fn lemma_bad_url_remnants_bounds(s: Seq<char>, p: int)
    requires
        0 <= p <= s.len(),
    ensures
        p <= bad_url_remnants(s, p) <= s.len(),
    decreases s.len() - p,
{
    if 0 <= p < s.len() {
        if s[p] == ')' {
        } else if s[p] == '\\' && escape_continues(s, p + 1) {
            lemma_escaped_bounds(s, p + 1);
            lemma_bad_url_remnants_bounds(s, escaped_code_point(s, p + 1).1);
        } else {
            lemma_bad_url_remnants_bounds(s, p + 1);
        }
    }
}

pub proof fn lemma_url_body_bounds(s: Seq<char>, p: int)
    requires
        0 <= p <= s.len(),
    ensures
        p <= url_body(s, p).1 <= s.len(),
    decreases s.len() - p,
{
    if 0 <= p < s.len() {
        let c = s[p];
        if c == ')' {
        } else if spec_is_whitespace(c) {
            lemma_ws_run_bounds(s, p + 1);
            let r = ws_run_end(s, p + 1);
            if r < s.len() {
                lemma_bad_url_remnants_bounds(s, r);
            }
        } else if c == '"' || c == '\'' || c == '(' || crate::chars::spec_is_non_printable(c) {
            lemma_bad_url_remnants_bounds(s, p + 1);
        } else if c == '\\' {
            if escape_continues(s, p + 1) {
                lemma_escaped_bounds(s, p + 1);
                lemma_url_body_bounds(s, escaped_code_point(s, p + 1).1);
            } else {
                lemma_bad_url_remnants_bounds(s, p + 1);
            }
        } else {
            lemma_url_body_bounds(s, p + 1);
        }
    }
}

pub proof fn lemma_skip_ws_pairs_bounds(s: Seq<char>, p: int)
    requires
        0 <= p <= s.len(),
    ensures
        p <= skip_ws_pairs(s, p) <= s.len(),
    decreases s.len() - p,
{
    if ws_at(s, p) && ws_at(s, p + 1) {
        lemma_skip_ws_pairs_bounds(s, p + 1);
    }
}

pub proof fn lemma_ident_like_bounds(s: Seq<char>, p: int)
    requires
        0 <= p <= s.len(),
    ensures
        p <= ident_like(s, p).1 <= s.len(),
        ident_char_at(s, p) || valid_escape_at(s, p) ==> p < ident_like(s, p).1,
{
    lemma_ident_seq_bounds(s, p);
    let e = ident_seq(s, p).1;
    if char_at(s, e) == Some('(') {
        lemma_skip_ws_pairs_bounds(s, e + 1);
        let q = skip_ws_pairs(s, e + 1);
        lemma_ws_run_bounds(s, q);
        lemma_url_body_bounds(s, ws_run_end(s, q));
    }
}

pub proof fn lemma_number_end_bounds(s: Seq<char>, p: int)
    requires
        0 <= p <= s.len(),
    ensures
        p <= number_end(s, p).0 <= s.len(),
        digit_at(s, p) || (sign_at(s, p) && digit_at(s, p + 1)) || (sign_at(s, p) && char_at(
            s,
            p + 1,
        ) == Some('.') && digit_at(s, p + 2)) || (char_at(s, p) == Some('.') && digit_at(s, p + 1))
            ==> p < number_end(s, p).0,
{
    let p1 = if sign_at(s, p) {
        p + 1
    } else {
        p
    };
    lemma_digit_run_bounds(s, p1);
    let e = number_int_end(s, p);
    if has_fraction(s, e) {
        lemma_digit_run_bounds(s, e + 1);
    }
    let f = number_frac_end(s, p);
    if has_exponent(s, f) {
        let g = if sign_at(s, f + 1) {
            f + 2
        } else {
            f + 1
        };
        lemma_digit_run_bounds(s, g);
    }
}

pub proof fn lemma_numeric_token_bounds(s: Seq<char>, p: int)
    requires
        0 <= p <= s.len(),
    ensures
        p <= numeric_token(s, p).1 <= s.len(),
        digit_at(s, p) || (sign_at(s, p) && digit_at(s, p + 1)) || (sign_at(s, p) && char_at(
            s,
            p + 1,
        ) == Some('.') && digit_at(s, p + 2)) || (char_at(s, p) == Some('.') && digit_at(s, p + 1))
            ==> p < numeric_token(s, p).1,
{
    lemma_number_end_bounds(s, p);
    lemma_ident_seq_bounds(s, number_end(s, p).0);
}

pub proof fn lemma_unicode_range_bounds(s: Seq<char>, p: int)
    requires
        0 <= p <= s.len(),
        starts_unicode_range_at(s, p),
    ensures
        p < unicode_range_token(s, p).1 <= s.len(),
{
    let q = p + 2;
    lemma_hex_run_bounds(s, q, 6);
    let k1 = hex_run(s, q, 6);
    lemma_qmark_run_bounds(s, q + k1, (6 - k1) as nat);
    let r = q + k1;
    if hex_at(s, r + 1) {
        lemma_hex_run_bounds(s, r + 1, 6);
    }
}

pub proof fn lemma_dispatch_bounds(s: Seq<char>, p: int, u: bool)
    requires
        0 <= p < s.len(),
    ensures
        p < dispatch(s, p, s[p], u).1 <= s.len(),
{
    let c = s[p];
    let q = p + 1;
    if spec_is_whitespace(c) {
        lemma_ws_run_bounds(s, q);
    } else if c == '"' || c == '\'' {
        lemma_string_body_bounds(s, q, c);
    } else if c == '#' {
        lemma_ident_seq_bounds(s, q);
    } else if c == '-' {
        lemma_numeric_token_bounds(s, p);
        lemma_ident_like_bounds(s, p);
    } else if c == '+' || c == '.' {
        lemma_numeric_token_bounds(s, p);
    } else if c == '@' {
        lemma_ident_seq_bounds(s, q);
    } else if c == '\\' {
        lemma_ident_like_bounds(s, p);
    } else if spec_is_digit(c) {
        lemma_numeric_token_bounds(s, p);
    } else if c == 'u' || c == 'U' {
        if starts_unicode_range_at(s, p) {
            lemma_unicode_range_bounds(s, p);
        }
        lemma_ident_like_bounds(s, p);
    } else if spec_is_ident_start(c) {
        lemma_ident_like_bounds(s, p);
    }
}

/// Every token but `<EOF-token>` consumes at least one code point; the
/// position stays within the input; `<EOF-token>` comes exactly at the end of
/// the input.
pub proof fn lemma_consume_token_progress(s: Seq<char>, p: int, u: bool)
    requires
        0 <= p <= s.len(),
    ensures
        p <= consume_token(s, p, u).1 <= s.len(),
        consume_token(s, p, u).0 is Eof ==> consume_token(s, p, u).1 == s.len(),
        !(consume_token(s, p, u).0 is Eof) ==> p < consume_token(s, p, u).1,
    decreases s.len() - p,
{
    if p < s.len() {
        if s[p] == '/' && char_at(s, p + 1) == Some('*') {
            lemma_comment_end_bounds(s, p + 2);
            lemma_consume_token_progress(s, comment_end(s, p + 2), u);
        } else {
            lemma_dispatch_bounds(s, p, u);
        }
    }
}

} // verus!
