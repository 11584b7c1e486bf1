//! Properties of the tokenizer as a whole.

use vstd::prelude::*;
use crate::chars::spec_is_whitespace;
use crate::model::{
    bad_url_remnants, char_at, code_point_or_replacement, comment_end, consume_token, digit_at,
    dispatch, escape_continues, escaped_code_point, has_exponent, has_fraction,
    lemma_comment_end_bounds, lemma_digit_run_bounds, lemma_escaped_bounds, lemma_ws_run_bounds,
    number_end, number_frac_end, number_int_end, sign_at, starts_unicode_range_at,
    unicode_range_token, ws_at,
};
use crate::preprocess::preprocess;
use crate::progress::{lemma_consume_token_progress, lemma_number_end_bounds};
use crate::impls::TokenizerView;
use crate::types::TokenView;

verus! {

/// The tokens produced from position `p` on, up to and including
/// `<EOF-token>`.
pub open spec fn tokens_from(s: Seq<char>, p: int, unicode_ranges_allowed: bool) -> Seq<
    TokenView,
>
    decreases s.len() - p,
{
    if !(0 <= p <= s.len()) {
        seq![TokenView::Eof]
    } else {
        proof {
            lemma_consume_token_progress(s, p, unicode_ranges_allowed);
        }
        let (t, e) = consume_token(s, p, unicode_ranges_allowed);
        if t is Eof {
            seq![t]
        } else {
            seq![t] + tokens_from(s, e, unicode_ranges_allowed)
        }
    }
}

/// Tokenization ends: from any position, the token sequence is finite, holds
/// `<EOF-token>` exactly once, as its last token, and has at most one token
/// per remaining code point besides it.
pub proof fn lemma_tokens_end_with_single_eof(s: Seq<char>, p: int, u: bool)
    requires
        0 <= p <= s.len(),
    ensures
        1 <= tokens_from(s, p, u).len() <= s.len() - p + 1,
        tokens_from(s, p, u).last() is Eof,
        forall|i: int| 0 <= i < tokens_from(s, p, u).len() - 1 ==> !(tokens_from(s, p, u)[i] is Eof),
    decreases s.len() - p,
{
    lemma_consume_token_progress(s, p, u);
    let (t, e) = consume_token(s, p, u);
    if !(t is Eof) {
        lemma_tokens_end_with_single_eof(s, e, u);
        let rest = tokens_from(s, e, u);
        assert forall|i: int| 0 <= i < tokens_from(s, p, u).len() - 1 implies !(tokens_from(
            s,
            p,
            u,
        )[i] is Eof) by {
            if i > 0 {
                assert(tokens_from(s, p, u)[i] == rest[i - 1]);
            }
        }
    }
}

/// The token at `p`, after skipping comments, is the one that the code point
/// after the comments dispatches to.
pub proof fn lemma_consume_token_dispatches(s: Seq<char>, p: int, u: bool)
    requires
        0 <= p <= s.len(),
    ensures
        consume_token(s, p, u).0 is Eof || exists|q: int|
            p <= q < s.len() && consume_token(s, p, u) == dispatch(s, q, s[q], u),
    decreases s.len() - p,
{
    if p < s.len() {
        if s[p] == '/' && char_at(s, p + 1) == Some('*') {
            lemma_comment_end_bounds(s, p + 2);
            lemma_consume_token_dispatches(s, comment_end(s, p + 2), u);
        } else {
            assert(consume_token(s, p, u) == dispatch(s, p, s[p], u));
        }
    }
}

/// Comments are skipped: the tokenizer never produces a `<comment-token>`.
pub proof fn lemma_no_comment_tokens(s: Seq<char>, p: int, u: bool)
    requires
        0 <= p <= s.len(),
    ensures
        !(consume_token(s, p, u).0 is Comment),
{
    lemma_consume_token_dispatches(s, p, u);
    if !(consume_token(s, p, u).0 is Eof) {
        let q = choose|q: int| p <= q < s.len() && consume_token(s, p, u) == dispatch(s, q, s[q], u);
        lemma_dispatch_never_comment(s, q, u);
    }
}

proof fn lemma_dispatch_never_comment(s: Seq<char>, q: int, u: bool)
    requires
        0 <= q < s.len(),
    ensures
        !(dispatch(s, q, s[q], u).0 is Comment),
        !u ==> !(dispatch(s, q, s[q], u).0 is UnicodeRange),
{
    let c = s[q];
    if c == 'u' || c == 'U' {
        if u && starts_unicode_range_at(s, q) {
            assert(dispatch(s, q, c, u) == unicode_range_token(s, q));
        }
    }
}

/// `<unicode-range-token>`s come only when they are allowed.
pub proof fn lemma_no_unicode_range_unless_allowed(s: Seq<char>, p: int)
    requires
        0 <= p <= s.len(),
    ensures
        !(consume_token(s, p, false).0 is UnicodeRange),
{
    lemma_consume_token_dispatches(s, p, false);
    if !(consume_token(s, p, false).0 is Eof) {
        let q = choose|q: int|
            p <= q < s.len() && consume_token(s, p, false) == dispatch(s, q, s[q], false);
        lemma_dispatch_never_comment(s, q, false);
    }
}

/// A run of whitespace becomes a single `<whitespace-token>`: the code point
/// after it is not whitespace.
pub proof fn lemma_whitespace_token_maximal(s: Seq<char>, p: int, u: bool)
    requires
        0 <= p <= s.len(),
        consume_token(s, p, u).0 is Whitespace,
    ensures
        !ws_at(s, consume_token(s, p, u).1),
{
    lemma_consume_token_dispatches(s, p, u);
    let q = choose|q: int| p <= q < s.len() && consume_token(s, p, u) == dispatch(s, q, s[q], u);
    let c = s[q];
    lemma_ws_run_bounds(s, q + 1);
    if !spec_is_whitespace(c) {
        lemma_dispatch_never_comment(s, q, u);
    }
}

/// Tokenizing is a function of the input, the position and the
/// unicode-range flag: after `reset`, a tokenizer replays exactly the tokens of
/// a fresh tokenizer over the same input with the same flag.
pub proof fn lemma_reset_replays(a: TokenizerView, b: TokenizerView)
    requires
        a.input == b.input,
        a.pos == 0,
        b.pos == 0,
        a.unicode_ranges_allowed == b.unicode_ranges_allowed,
    ensures
        consume_token(a.input, a.pos as int, a.unicode_ranges_allowed) == consume_token(
            b.input,
            b.pos as int,
            b.unicode_ranges_allowed,
        ),
        tokens_from(a.input, a.pos as int, a.unicode_ranges_allowed) == tokens_from(
            b.input,
            b.pos as int,
            b.unicode_ranges_allowed,
        ),
{
}

/// At the end of the input the next token is `<EOF-token>` and it consumes
/// nothing.
pub proof fn lemma_eof_at_end(s: Seq<char>, u: bool)
    ensures
        consume_token(s, s.len() as int, u) == (TokenView::Eof, s.len() as int),
{
}

/// A hex escape never decodes to U+0000 or to a value beyond U+10FFFF.
pub proof fn lemma_escape_value_valid(v: nat)
    ensures
        code_point_or_replacement(v) != '\u{0}',
        code_point_or_replacement(v) <= '\u{10FFFF}',
{
}

/// Preprocessing leaves no CR and no FF.
pub proof fn lemma_preprocess_normalizes(s: Seq<char>)
    ensures
        forall|i: int|
            0 <= i < preprocess(s).len() ==> #[trigger] preprocess(s)[i] != '\r' && preprocess(
                s,
            )[i] != '\u{0C}',
        preprocess(s).len() <= s.len(),
    decreases s.len(),
{
    if s.len() > 0 {
        if s[0] == '\r' && s.len() > 1 && s[1] == '\n' {
            lemma_preprocess_normalizes(s.subrange(2, s.len() as int));
            let r = preprocess(s.subrange(2, s.len() as int));
            assert forall|i: int| 0 <= i < preprocess(s).len() implies #[trigger] preprocess(s)[i]
                != '\r' && preprocess(s)[i] != '\u{0C}' by {
                if i > 0 {
                    assert(preprocess(s)[i] == r[i - 1]);
                }
            }
        } else {
            lemma_preprocess_normalizes(s.drop_first());
            let r = preprocess(s.drop_first());
            assert forall|i: int| 0 <= i < preprocess(s).len() implies #[trigger] preprocess(s)[i]
                != '\r' && preprocess(s)[i] != '\u{0C}' by {
                if i > 0 {
                    assert(preprocess(s)[i] == r[i - 1]);
                }
            }
        }
    }
}

/// Input that holds no CR and no FF is left as it is.
pub proof fn lemma_preprocess_identity(s: Seq<char>)
    requires
        forall|i: int| 0 <= i < s.len() ==> #[trigger] s[i] != '\r' && s[i] != '\u{0C}',
    ensures
        preprocess(s) == s,
    decreases s.len(),
{
    if s.len() > 0 {
        assert(s[0] != '\r' && s[0] != '\u{0C}');
        let t = s.drop_first();
        assert forall|i: int| 0 <= i < t.len() implies #[trigger] t[i] != '\r' && t[i]
            != '\u{0C}' by {
            assert(t[i] == s[i + 1]);
        }
        lemma_preprocess_identity(t);
        assert(seq![s[0]] + t =~= s);
    }
}

/// Preprocessing is idempotent.
pub proof fn lemma_preprocess_idempotent(s: Seq<char>)
    ensures
        preprocess(preprocess(s)) == preprocess(s),
{
    lemma_preprocess_normalizes(s);
    lemma_preprocess_identity(preprocess(s));
}

/// §4.3.2: a comment ends just after the first `*/` at or after the start of
/// its body, or at the end of the input when there is none.
pub proof fn lemma_comment_end_first_close(s: Seq<char>, p: int)
    requires
        0 <= p <= s.len(),
    ensures
        ({
            let e = comment_end(s, p);
            ||| (e == s.len() && forall|k: int|
                p <= k < s.len() - 1 ==> !(#[trigger] s[k] == '*' && s[k + 1] == '/'))
            ||| (p + 2 <= e <= s.len() && s[e - 2] == '*' && s[e - 1] == '/' && forall|k: int|
                p <= k < e - 2 ==> !(#[trigger] s[k] == '*' && s[k + 1] == '/'))
        }),
    decreases s.len() - p,
{
    if p < s.len() && !(s[p] == '*' && char_at(s, p + 1) == Some('/')) {
        lemma_comment_end_first_close(s, p + 1);
    }
}

/// §4.3.15: the remnants of a bad url end just after a `)`, or at the end of
/// the input.
pub proof fn lemma_bad_url_remnants_end(s: Seq<char>, p: int)
    requires
        0 <= p <= s.len(),
    ensures
        p <= bad_url_remnants(s, p) <= s.len(),
        bad_url_remnants(s, p) == s.len() || (p < bad_url_remnants(s, p) && s[bad_url_remnants(
            s,
            p,
        ) - 1] == ')'),
    decreases s.len() - p,
{
    if 0 <= p < s.len() {
        if s[p] == ')' {
        } else if s[p] == '\\' && escape_continues(s, p + 1) {
            lemma_escaped_bounds(s, p + 1);
            lemma_bad_url_remnants_end(s, escaped_code_point(s, p + 1).1);
        } else {
            lemma_bad_url_remnants_end(s, p + 1);
        }
    }
}

/// §4.3.13: a number is an integer exactly when its representation holds no
/// `.`, `e` or `E`.
pub proof fn lemma_number_integer_flag(s: Seq<char>, p: int)
    requires
        0 <= p <= s.len(),
    ensures
        number_end(s, p).1 == (forall|i: int|
            p <= i < number_end(s, p).0 ==> #[trigger] s[i] != '.' && s[i] != 'e' && s[i]
                != 'E'),
{
    lemma_number_end_bounds(s, p);
    let p1 = if sign_at(s, p) {
        p + 1
    } else {
        p
    };
    lemma_digit_run_bounds(s, p1);
    let e = number_int_end(s, p);
    assert forall|i: int| p <= i < e implies #[trigger] s[i] != '.' && s[i] != 'e' && s[i]
        != 'E' by {
        if i >= p1 {
            assert(digit_at(s, i));
        }
    }
    if has_fraction(s, e) {
        lemma_digit_run_bounds(s, e + 1);
    }
    let f = number_frac_end(s, p);
    if has_exponent(s, f) {
        let g = if sign_at(s, f + 1) {
            f + 2
        } else {
            f + 1
        };
        lemma_digit_run_bounds(s, g);
        assert(s[f] == 'e' || s[f] == 'E');
    } else if has_fraction(s, e) {
        assert(s[e] == '.');
    }
}

} // verus!
