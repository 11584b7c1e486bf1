//! What each kind of token is, stated in terms of the input code points.

use vstd::prelude::*;
use crate::chars::{
    spec_is_hex_digit, spec_is_ident_char, spec_is_ident_start, spec_is_non_printable,
    spec_is_whitespace,
};
use crate::laws::{lemma_consume_token_dispatches, lemma_number_integer_flag};
use crate::model::{
    char_at, consume_token, digit_at, digit_run_end, dispatch, has_fraction, hex_at, hex_run,
    hex_value, ident_seq, is_url_name, lemma_digit_run_bounds, number_end, number_frac_end,
    number_int_end, qmark_run, sign_at, starts_unicode_range_at, string_body, url_body, ws_at,
    ws_run_end,
};
use crate::progress::lemma_number_end_bounds;
use crate::types::{NumericView, TokenView};

verus! {

/// The number carried by a number, percentage or dimension token.
pub open spec fn numeric_of(t: TokenView) -> Option<NumericView> {
    match t {
        TokenView::Number(n) => Some(n),
        TokenView::Percentage(n) => Some(n),
        TokenView::Dimension(n, _) => Some(n),
        _ => None,
    }
}

/// A number's representation is maximal.
pub open spec fn maximal_number_at(s: Seq<char>, q: int, repr: Seq<char>) -> bool {
    let e = q + repr.len();
    &&& 0 <= q
    &&& e <= s.len()
    &&& s.subrange(q, e) == repr
    &&& !digit_at(s, e)
    &&& (forall|i: int| 0 <= i < repr.len() ==> #[trigger] repr[i] != '.' && repr[i] != 'e'
        && repr[i] != 'E') ==> !(char_at(s, e) == Some('.') && digit_at(s, e + 1))
}

proof fn lemma_numeric_token_maximal(s: Seq<char>, q: int)
    requires
        0 <= q <= s.len(),
    ensures
        maximal_number_at(s, q, s.subrange(q, number_end(s, q).0)),
{
    lemma_number_end_bounds(s, q);
    lemma_number_integer_flag(s, q);
    let p1 = if sign_at(s, q) {
        q + 1
    } else {
        q
    };
    lemma_digit_run_bounds(s, p1);
    let e = number_int_end(s, q);
    if has_fraction(s, e) {
        lemma_digit_run_bounds(s, e + 1);
    }
    let f = number_frac_end(s, q);
    let g = if sign_at(s, f + 1) {
        f + 2
    } else {
        f + 1
    };
    if 0 <= g <= s.len() {
        lemma_digit_run_bounds(s, g);
    }
    let r = s.subrange(q, number_end(s, q).0);
    assert(r.len() == number_end(s, q).0 - q);
    assert forall|i: int| 0 <= i < r.len() implies r[i] == s[q + i] by {}
    if forall|i: int| 0 <= i < r.len() ==> #[trigger] r[i] != '.' && r[i] != 'e' && r[i] != 'E' {
        assert forall|i: int| q <= i < number_end(s, q).0 implies #[trigger] s[i] != '.' && s[i]
            != 'e' && s[i] != 'E' by {
            assert(r[i - q] == s[i]);
        }
    }
}

/// §4.3.3, §4.3.13: every number, percentage or dimension token carries the
/// whole number in the input: its representation is a stretch of the input at
/// or after `p` that is followed by no digit, and, when it has no fraction
/// and no exponent, not by a `.` and a digit either.
pub proof fn lemma_number_is_maximal(s: Seq<char>, p: int, u: bool)
    requires
        0 <= p <= s.len(),
        numeric_of(consume_token(s, p, u).0) is Some,
    ensures
        exists|q: int|
            p <= q && maximal_number_at(s, q, numeric_of(consume_token(s, p, u).0)->0.repr),
{
    lemma_consume_token_dispatches(s, p, u);
    let q = choose|q: int| p <= q < s.len() && consume_token(s, p, u) == dispatch(s, q, s[q], u);
    lemma_numeric_token_maximal(s, q);
    assert(maximal_number_at(s, q, numeric_of(consume_token(s, p, u).0)->0.repr));
}

/// §4.3.1, §4.3.10: a sign followed by a digit, or by `.` and a digit, starts
/// a number: the token carries a representation that begins with that sign
/// and goes on past it.
pub proof fn lemma_sign_starts_number(s: Seq<char>, p: int, u: bool)
    requires
        0 <= p,
        p + 1 < s.len(),
        s[p] == '-' || s[p] == '+',
        digit_at(s, p + 1) || (s[p + 1] == '.' && digit_at(s, p + 2)),
    ensures
        numeric_of(consume_token(s, p, u).0) is Some,
        ({
            let r = numeric_of(consume_token(s, p, u).0)->0.repr;
            &&& r.len() >= 2
            &&& p + r.len() <= s.len()
            &&& r == s.subrange(p, p + r.len())
            &&& r[0] == s[p]
        }),
{
    lemma_number_end_bounds(s, p);
    lemma_digit_run_bounds(s, p + 1);
    if !digit_at(s, p + 1) {
        lemma_digit_run_bounds(s, p + 2);
    }
    assert(consume_token(s, p, u) == dispatch(s, p, s[p], u));
    assert(sign_at(s, p));
    let ie = number_int_end(s, p);
    assert(ie == digit_run_end(s, p + 1));
    if digit_at(s, p + 1) {
        assert(ie >= p + 2);
        if has_fraction(s, ie) {
            lemma_digit_run_bounds(s, ie + 1);
        }
    } else {
        assert(ie == p + 1);
        assert(has_fraction(s, ie));
        assert(number_frac_end(s, p) == digit_run_end(s, p + 2));
    }
    let f = number_frac_end(s, p);
    assert(f >= p + 2);
    let g = if sign_at(s, f + 1) {
        f + 2
    } else {
        f + 1
    };
    if g <= s.len() {
        lemma_digit_run_bounds(s, g);
    }
    let e = number_end(s, p).0;
    assert(e >= p + 2);
}

/// A code point that an unquoted url keeps as it is.
pub open spec fn plain_url_char(c: char) -> bool {
    !spec_is_whitespace(c) && c != '"' && c != '\'' && c != '(' && c != ')' && c != '\\'
        && !spec_is_non_printable(c)
}

proof fn lemma_url_body_plain(s: Seq<char>, i: int, k: int)
    requires
        0 <= i <= k < s.len(),
        s[k] == ')',
        forall|j: int| i <= j < k ==> plain_url_char(#[trigger] s[j]),
    ensures
        url_body(s, i) == (Some(s.subrange(i, k)), k + 1),
    decreases k - i,
{
    if i < k {
        lemma_url_body_plain(s, i + 1, k);
        assert(plain_url_char(s[i]));
        assert(seq![s[i]] + s.subrange(i + 1, k) =~= s.subrange(i, k));
    } else {
        assert(s.subrange(i, k) =~= Seq::<char>::empty());
    }
}

/// §4.3.4, §4.3.6: in `url(t)`, written in any case, with `t` made of code
/// points other than whitespace, quotes, parentheses, `\` and non-printable
/// code points, the token is a url whose value is `t`, and it ends after the
/// `)`.
pub proof fn lemma_plain_url(s: Seq<char>, p: int, k: int, u: bool)
    requires
        0 <= p,
        p + 4 <= k < s.len(),
        s[p] == 'u' || s[p] == 'U',
        s[p + 1] == 'r' || s[p + 1] == 'R',
        s[p + 2] == 'l' || s[p + 2] == 'L',
        s[p + 3] == '(',
        s[k] == ')',
        forall|j: int| p + 4 <= j < k ==> plain_url_char(#[trigger] s[j]),
    ensures
        consume_token(s, p, u) == (TokenView::Url(s.subrange(p + 4, k)), k + 1),
{
    assert(ident_seq(s, p + 3) == (Seq::<char>::empty(), p + 3));
    assert(ident_seq(s, p + 2).1 == p + 3);
    assert(ident_seq(s, p + 1).1 == p + 3);
    assert(ident_seq(s, p).1 == p + 3);
    assert(ident_seq(s, p).0 =~= seq![s[p], s[p + 1], s[p + 2]]);
    if p + 4 < k {
        assert(plain_url_char(s[p + 4]));
    }
    assert(!ws_at(s, p + 4));
    lemma_url_body_plain(s, p + 4, k);
    assert(consume_token(s, p, u) == dispatch(s, p, s[p], u));
}

proof fn lemma_string_body_plain(s: Seq<char>, i: int, k: int, quote: char)
    requires
        0 <= i <= k <= s.len(),
        k == s.len() || s[k] == quote,
        forall|j: int|
            i <= j < k ==> #[trigger] s[j] != quote && s[j] != '\n' && s[j] != '\\',
    ensures
        string_body(s, i, quote) == (
            Some(s.subrange(i, k)),
            if k < s.len() {
                k + 1
            } else {
                k
            },
        ),
    decreases k - i,
{
    if i < k {
        lemma_string_body_plain(s, i + 1, k, quote);
        assert(s[i] != quote && s[i] != '\n' && s[i] != '\\');
        assert(seq![s[i]] + s.subrange(i + 1, k) =~= s.subrange(i, k));
    } else {
        assert(s.subrange(i, k) =~= Seq::<char>::empty());
    }
}

/// §4.3.5: a string ends only at the quote that opened it. When the code
/// points after the opening quote up to `k` hold no such quote, no newline and
/// no `\`, and at `k` the same quote closes the string or the input ends, the
/// token is a string whose value is exactly those code points.
pub proof fn lemma_string_token_plain(s: Seq<char>, p: int, k: int, u: bool)
    requires
        0 <= p < k <= s.len(),
        s[p] == '"' || s[p] == '\'',
        k == s.len() || s[k] == s[p],
        forall|j: int|
            p < j < k ==> #[trigger] s[j] != s[p] && s[j] != '\n' && s[j] != '\\',
    ensures
        consume_token(s, p, u) == (
            TokenView::String(s.subrange(p + 1, k)),
            if k < s.len() {
                k + 1
            } else {
                k
            },
        ),
{
    lemma_string_body_plain(s, p + 1, k, s[p]);
    assert(consume_token(s, p, u) == dispatch(s, p, s[p], u));
}

proof fn lemma_hex_run_exact(s: Seq<char>, a: int, k: int, n: nat)
    requires
        0 <= a,
        0 <= k <= n,
        forall|j: int| a <= j < a + k ==> hex_at(s, j),
        k == n || !hex_at(s, a + k),
    ensures
        hex_run(s, a, n) == k,
    decreases k,
{
    if k > 0 {
        assert(hex_at(s, a));
        lemma_hex_run_exact(s, a + 1, k - 1, (n - 1) as nat);
    }
}

/// §4.3.14: in the range form `U+a-b`, with `a` and `b` runs of one to six hex
/// digits each, each run as long as the hex digits go (or six long), the
/// token's start is the value of `a`, its end the value of `b`, and it ends
/// right after `b`.
pub proof fn lemma_unicode_range_form(s: Seq<char>, p: int, k1: int, k2: int)
    requires
        0 <= p,
        s[p] == 'U' || s[p] == 'u',
        p + 2 + k1 + 1 + k2 <= s.len(),
        s[p + 1] == '+',
        1 <= k1 <= 6,
        forall|j: int| p + 2 <= j < p + 2 + k1 ==> spec_is_hex_digit(#[trigger] s[j]),
        s[p + 2 + k1] == '-',
        1 <= k2 <= 6,
        forall|j: int|
            p + 3 + k1 <= j < p + 3 + k1 + k2 ==> spec_is_hex_digit(#[trigger] s[j]),
        k2 == 6 || !hex_at(s, p + 3 + k1 + k2),
    ensures
        consume_token(s, p, true) == (
            TokenView::UnicodeRange(
                Some(hex_value(s.subrange(p + 2, p + 2 + k1), 0) as u32),
                Some(hex_value(s.subrange(p + 3 + k1, p + 3 + k1 + k2), 0) as u32),
            ),
            p + 3 + k1 + k2,
        ),
{
    let q = p + 2;
    assert forall|j: int| q <= j < q + k1 implies hex_at(s, j) by {
        assert(spec_is_hex_digit(s[j]));
    }
    assert(!hex_at(s, q + k1));
    lemma_hex_run_exact(s, q, k1, 6);
    assert(qmark_run(s, q + k1, (6 - k1) as nat) == 0);
    assert(s.subrange(q, q + k1 + 0) =~= s.subrange(q, q + k1));
    let r = q + k1;
    assert forall|j: int| r + 1 <= j < r + 1 + k2 implies hex_at(s, j) by {
        assert(spec_is_hex_digit(s[j]));
    }
    lemma_hex_run_exact(s, r + 1, k2, 6);
    assert(hex_at(s, r + 1));
    assert(consume_token(s, p, true) == dispatch(s, p, s[p], true));
}

proof fn lemma_ident_seq_plain(s: Seq<char>, i: int, k: int)
    requires
        0 <= i <= k <= s.len(),
        forall|j: int| i <= j < k ==> spec_is_ident_char(#[trigger] s[j]),
        k == s.len() || (!spec_is_ident_char(s[k]) && s[k] != '\\'),
    ensures
        ident_seq(s, i) == (s.subrange(i, k), k),
    decreases k - i,
{
    if i < k {
        lemma_ident_seq_plain(s, i + 1, k);
        assert(spec_is_ident_char(s[i]));
        assert(seq![s[i]] + s.subrange(i + 1, k) =~= s.subrange(i, k));
    } else {
        assert(s.subrange(i, k) =~= Seq::<char>::empty());
    }
}

/// §4.3.4, §4.3.12: a name made of ident code points that starts with an
/// ident-start code point (and does not start a unicode-range token) is an
/// ident token holding exactly that name, ending where the name ends; when a
/// `(` follows and the name is not `url`, it is a function token that also
/// takes the `(`.
pub proof fn lemma_plain_ident(s: Seq<char>, p: int, k: int, u: bool)
    requires
        0 <= p < k <= s.len(),
        spec_is_ident_start(s[p]),
        !(u && starts_unicode_range_at(s, p)),
        forall|j: int| p <= j < k ==> spec_is_ident_char(#[trigger] s[j]),
        k == s.len() || (!spec_is_ident_char(s[k]) && s[k] != '\\'),
    ensures
        char_at(s, k) != Some('(') ==> consume_token(s, p, u) == (
            TokenView::Ident(s.subrange(p, k)),
            k,
        ),
        char_at(s, k) == Some('(') && !is_url_name(s.subrange(p, k)) ==> consume_token(s, p, u)
            == (TokenView::Function(s.subrange(p, k)), k + 1),
{
    lemma_ident_seq_plain(s, p, k);
    assert(consume_token(s, p, u) == dispatch(s, p, s[p], u));
}

/// §4.3.1: each of `:`, `;`, `,`, `(`, `)`, `[`, `]`, `{`, `}` is a token of
/// its own kind that consumes just that code point.
pub proof fn lemma_punctuation(s: Seq<char>, p: int, u: bool)
    requires
        0 <= p < s.len(),
    ensures
        s[p] == ':' ==> consume_token(s, p, u) == (TokenView::Colon, p + 1),
        s[p] == ';' ==> consume_token(s, p, u) == (TokenView::Semicolon, p + 1),
        s[p] == ',' ==> consume_token(s, p, u) == (TokenView::Comma, p + 1),
        s[p] == '(' ==> consume_token(s, p, u) == (TokenView::OpenParen, p + 1),
        s[p] == ')' ==> consume_token(s, p, u) == (TokenView::CloseParen, p + 1),
        s[p] == '[' ==> consume_token(s, p, u) == (TokenView::OpenBracket, p + 1),
        s[p] == ']' ==> consume_token(s, p, u) == (TokenView::CloseBracket, p + 1),
        s[p] == '{' ==> consume_token(s, p, u) == (TokenView::OpenBrace, p + 1),
        s[p] == '}' ==> consume_token(s, p, u) == (TokenView::CloseBrace, p + 1),
{
}

/// §4.3.1: a run of whitespace is one whitespace token that consumes exactly
/// the run.
pub proof fn lemma_whitespace_run(s: Seq<char>, p: int, k: int, u: bool)
    requires
        0 <= p < k <= s.len(),
        forall|j: int| p <= j < k ==> spec_is_whitespace(#[trigger] s[j]),
        k == s.len() || !spec_is_whitespace(s[k]),
    ensures
        consume_token(s, p, u) == (TokenView::Whitespace, k),
{
    lemma_ws_run_exact(s, p + 1, k);
    assert(spec_is_whitespace(s[p]));
    assert(consume_token(s, p, u) == dispatch(s, p, s[p], u));
}

proof fn lemma_ws_run_exact(s: Seq<char>, i: int, k: int)
    requires
        0 <= i <= k <= s.len(),
        forall|j: int| i <= j < k ==> spec_is_whitespace(#[trigger] s[j]),
        k == s.len() || !spec_is_whitespace(s[k]),
    ensures
        ws_run_end(s, i) == k,
    decreases k - i,
{
    if i < k {
        assert(spec_is_whitespace(s[i]));
        lemma_ws_run_exact(s, i + 1, k);
    }
}

} // verus!
