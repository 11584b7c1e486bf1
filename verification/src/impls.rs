//! The CSS tokenizer (CSS Syntax §4.3), a recursive-descent algorithm over
//! the preprocessed input.

use vstd::prelude::*;
use crate::chars::{
    hex_value_of, is_digit, is_hex_digit, is_ident_code_point, is_ident_start_code_point,
    is_non_printable, is_whitespace, spec_is_hex_digit, spec_is_whitespace,
};
use crate::model::{
    at_keyword_token, bad_url_remnants, char_at, comment_end, consume_token, digit_at,
    digit_run_end, dispatch, escape_continues, escaped_code_point, has_exponent, has_fraction,
    hash_token, hex_at, hex_run, hex_value, ident_like, ident_seq, is_url_name,
    lemma_comment_end_bounds, lemma_digit_run_bounds, lemma_escaped_bounds, lemma_hex_run_bounds,
    lemma_qmark_run_bounds, lemma_ws_run_bounds, number_end, number_int_end, numeric_token, prepend,
    qmark_run, sign_at, skip_ws_pairs, starts_ident_at, starts_number, starts_unicode_range_at,
    string_body, unicode_range_token, url_body, url_token, valid_escape_at, ws_at, ws_run_end,
};
use crate::laws::{lemma_tokens_end_with_single_eof, tokens_from};
use crate::preprocess::{preprocess, preprocess_input};
use crate::progress::lemma_consume_token_progress;
use crate::text::string_from_chars;
use crate::trait_def::Tokenizer;
use crate::types::{HashType, Numeric, State, Token, TokenView};

verus! {

/// Powers of sixteen up to the sixth: a bound on the value of a numeral of
/// `n` hex digits.
pub open spec fn hex_cap(n: int) -> int {
    if n <= 0 {
        1
    } else if n == 1 {
        0x10
    } else if n == 2 {
        0x100
    } else if n == 3 {
        0x1000
    } else if n == 4 {
        0x10000
    } else if n == 5 {
        0x100000
    } else {
        0x1000000
    }
}

/// `acc` put in front of the string of a string-or-bad result.
pub open spec fn prefix_with(acc: Seq<char>, r: (Option<Seq<char>>, int)) -> (
    Option<Seq<char>>,
    int,
) {
    match r.0 {
        Some(t) => (Some(acc + t), r.1),
        None => (None, r.1),
    }
}

proof fn lemma_prefix_with_prepend(acc: Seq<char>, c: char, r: (Option<Seq<char>>, int))
    ensures
        prefix_with(acc, prepend(c, r)) == prefix_with(acc.push(c), r),
{
    match r.0 {
        Some(t) => {
            assert(acc + (seq![c] + t) =~= acc.push(c) + t);
        },
        None => {},
    }
}

proof fn lemma_hex_value_no_qmark(d: Seq<char>, f1: nat, f2: nat)
    requires
        forall|i: int| 0 <= i < d.len() ==> spec_is_hex_digit(#[trigger] d[i]),
    ensures
        hex_value(d, f1) == hex_value(d, f2),
    decreases d.len(),
{
    if d.len() > 0 {
        assert(spec_is_hex_digit(d[d.len() - 1]));
        lemma_hex_value_no_qmark(d.drop_last(), f1, f2);
    }
}

/// The observable state of a [`CssTokenizer`].
pub struct TokenizerView {
    /// The preprocessed input.
    pub input: Seq<char>,
    /// The index of the next code point to consume.
    pub pos: nat,
    /// The top-level state.
    pub state: State,
    /// Whether `<EOF-token>` has been emitted.
    pub eof_emitted: bool,
    /// Whether `U+` starts a unicode-range token.
    pub unicode_ranges_allowed: bool,
}

/// The CSS tokenizer (§4.3): the preprocessed input, the current position
/// and the flags of the top-level protocol.
pub struct CssTokenizer {
    input: Vec<char>,
    pos: usize,
    state: State,
    eof_emitted: bool,
    unicode_ranges_allowed: bool,
}

impl View for CssTokenizer {
    type V = TokenizerView;

    closed spec fn view(&self) -> TokenizerView {
        TokenizerView {
            input: self.input@,
            pos: self.pos as nat,
            state: self.state,
            eof_emitted: self.eof_emitted,
            unicode_ranges_allowed: self.unicode_ranges_allowed,
        }
    }
}

/// Everything but the position is the same in `a` and `b`.
pub open spec fn same_but_pos(a: TokenizerView, b: TokenizerView) -> bool {
    a.input == b.input && a.state == b.state && a.eof_emitted == b.eof_emitted
        && a.unicode_ranges_allowed == b.unicode_ranges_allowed
}

/// `b` is at or after the position of `a`, and within the input.
pub open spec fn advanced(a: TokenizerView, b: TokenizerView) -> bool {
    a.pos <= b.pos && b.pos <= b.input.len()
}

impl CssTokenizer {
    #[verifier::type_invariant]
    spec fn inv(self) -> bool {
        self.pos <= self.input.len()
    }

    /// The code point at `offset` from the current position, if any.
    fn peek(&self, offset: usize) -> (r: Option<char>)
        ensures
            r == char_at(self@.input, self@.pos + offset),
    {
        proof {
            use_type_invariant(self);
        }
        if offset < self.input.len() - self.pos {
            Some(self.input[self.pos + offset])
        } else {
            None
        }
    }

    /// The code point at `offset` from the current position is `c`.
    fn next_is(&self, offset: usize, c: char) -> (r: bool)
        ensures
            r == (char_at(self@.input, self@.pos + offset) == Some(c)),
    {
        match self.peek(offset) {
            Some(d) => d == c,
            None => false,
        }
    }

    fn next_is_digit(&self, offset: usize) -> (r: bool)
        ensures
            r == digit_at(self@.input, self@.pos + offset),
    {
        match self.peek(offset) {
            Some(d) => is_digit(d),
            None => false,
        }
    }

    fn next_is_hex_digit(&self, offset: usize) -> (r: bool)
        ensures
            r == hex_at(self@.input, self@.pos + offset),
    {
        match self.peek(offset) {
            Some(d) => is_hex_digit(d),
            None => false,
        }
    }

    fn next_is_whitespace(&self, offset: usize) -> (r: bool)
        ensures
            r == ws_at(self@.input, self@.pos + offset),
    {
        match self.peek(offset) {
            Some(d) => is_whitespace(d),
            None => false,
        }
    }

    /// Consumes the next code point.
    fn consume(&mut self) -> (r: Option<char>)
        ensures
            same_but_pos(old(self)@, final(self)@),
            r == char_at(old(self)@.input, old(self)@.pos as int),
            final(self)@.pos == if r is Some {
                old(self)@.pos + 1
            } else {
                old(self)@.pos
            },
    {
        proof {
            use_type_invariant(&*self);
        }
        if self.pos < self.input.len() {
            let c = self.input[self.pos];
            self.pos = self.pos + 1;
            Some(c)
        } else {
            None
        }
    }

    /// Steps back over the code point just consumed.
    fn reconsume(&mut self)
        ensures
            same_but_pos(old(self)@, final(self)@),
            final(self)@.pos == if old(self)@.pos > 0 {
                old(self)@.pos - 1
            } else {
                0
            },
    {
        proof {
            use_type_invariant(&*self);
        }
        if self.pos > 0 {
            self.pos = self.pos - 1;
        }
    }

    /// §4.3.8 with the `\` consumed: the next code point continues a valid
    /// escape.
    fn is_valid_escape_next(&self) -> (r: bool)
        ensures
            r == escape_continues(self@.input, self@.pos as int),
    {
        match self.peek(0) {
            None => false,
            Some(c) => c != '\n',
        }
    }

    /// The code point at `offset + extra` from the current position, if any;
    /// an offset past the largest `usize` is past the end of the input.
    fn peek_plus(&self, offset: usize, extra: usize) -> (r: Option<char>)
        ensures
            r == char_at(self@.input, self@.pos + offset + extra),
    {
        proof {
            use_type_invariant(self);
        }
        match offset.checked_add(extra) {
            Some(o) => self.peek(o),
            None => None,
        }
    }

    /// §4.3.8: the code points at `offset` and `offset + 1` are a valid escape.
    fn is_valid_escape_at(&self, offset: usize) -> (r: bool)
        ensures
            r == valid_escape_at(self@.input, self@.pos + offset),
    {
        if !self.next_is(offset, '\\') {
            return false;
        }
        match self.peek_plus(offset, 1) {
            None => false,
            Some(c) => c != '\n',
        }
    }

    /// §4.3.9: the code points at `offset` would start an ident sequence.
    fn would_start_ident_sequence_at(&self, offset: usize) -> (r: bool)
        ensures
            r == starts_ident_at(self@.input, self@.pos + offset),
    {
        let first = match self.peek(offset) {
            Some(c) => c,
            None => return false,
        };
        if first == '-' {
            match self.peek_plus(offset, 1) {
                None => false,
                Some(next) => {
                    if next == '-' {
                        true
                    } else if is_ident_start_code_point(next) {
                        true
                    } else if next == '\\' {
                        match self.peek_plus(offset, 2) {
                            None => false,
                            Some(c) => c != '\n',
                        }
                    } else {
                        false
                    }
                },
            }
        } else if first == '\\' {
            self.is_valid_escape_at(offset)
        } else {
            is_ident_start_code_point(first)
        }
    }

    /// §4.3.10: `first` (consumed) and the next two code points would start a
    /// number.
    fn starts_with_number(&self, first: char) -> (r: bool)
        ensures
            r == starts_number(first, self@.input, self@.pos as int),
    {
        if first == '+' || first == '-' {
            self.next_is_digit(0) || (self.next_is(0, '.') && self.next_is_digit(1))
        } else if first == '.' {
            self.next_is_digit(0)
        } else {
            is_digit(first)
        }
    }

    /// §4.3.11: the code points at `offset` would start a unicode-range.
    fn would_start_unicode_range_at(&self, offset: usize) -> (r: bool)
        ensures
            r == starts_unicode_range_at(self@.input, self@.pos + offset),
    {
        if !(self.next_is(offset, 'U') || self.next_is(offset, 'u')) {
            return false;
        }
        match self.peek_plus(offset, 1) {
            Some(c) => if c != '+' {
                return false;
            },
            None => return false,
        }
        match self.peek_plus(offset, 2) {
            Some(c) => c == '?' || is_hex_digit(c),
            None => false,
        }
    }

    /// Consumes whitespace while the next code point is whitespace.
    fn consume_whitespace_run(&mut self)
        ensures
            same_but_pos(old(self)@, final(self)@),
            advanced(old(self)@, final(self)@),
            final(self)@.pos == ws_run_end(old(self)@.input, old(self)@.pos as int),
    {
        proof {
            use_type_invariant(&*self);
        }
        let ghost s = self@.input;
        let ghost p0 = self@.pos as int;
        let ghost start = self@;
        while self.next_is_whitespace(0)
            invariant
                same_but_pos(start, self@),
                self@.input == s,
                p0 == start.pos,
                p0 <= self@.pos <= s.len(),
                ws_run_end(s, p0) == ws_run_end(s, self@.pos as int),
            decreases s.len() - self@.pos,
        {
            self.consume();
        }
    }

    /// Consumes digits while the next code point is a digit, appending them to
    /// `repr`.
    fn consume_digits(&mut self, repr: &mut Vec<char>)
        ensures
            same_but_pos(old(self)@, final(self)@),
            advanced(old(self)@, final(self)@),
            final(self)@.pos == digit_run_end(old(self)@.input, old(self)@.pos as int),
            final(repr)@ == old(repr)@ + old(self)@.input.subrange(
                old(self)@.pos as int,
                final(self)@.pos as int,
            ),
    {
        proof {
            use_type_invariant(&*self);
        }
        let ghost s = self@.input;
        let ghost p0 = self@.pos as int;
        let ghost start = self@;
        let ghost r0 = repr@;
        proof {
            lemma_digit_run_bounds(s, p0);
        }
        while self.next_is_digit(0)
            invariant
                same_but_pos(start, self@),
                self@.input == s,
                0 <= p0 <= self@.pos <= s.len(),
                digit_run_end(s, p0) == digit_run_end(s, self@.pos as int),
                repr@ == r0 + s.subrange(p0, self@.pos as int),
            decreases s.len() - self@.pos,
        {
            let ghost pp = self@.pos as int;
            let d = self.consume().unwrap();
            repr.push(d);
            assert(s.subrange(p0, pp + 1) =~= s.subrange(p0, pp).push(d));
            assert(repr@ =~= r0 + s.subrange(p0, self@.pos as int));
        }
    }

    /// Consumes at most `max` hex digits: their count and the value of the
    /// numeral they form.
    fn consume_hex_digits(&mut self, max: usize) -> (r: (u32, usize))
        requires
            max <= 6,
        ensures
            same_but_pos(old(self)@, final(self)@),
            advanced(old(self)@, final(self)@),
            r.1 == hex_run(old(self)@.input, old(self)@.pos as int, max as nat),
            r.1 <= max,
            final(self)@.pos == old(self)@.pos + r.1,
            r.0 == hex_value(
                old(self)@.input.subrange(old(self)@.pos as int, old(self)@.pos + r.1),
                0,
            ),
            r.0 < hex_cap(r.1 as int),
            forall|j: int|
                old(self)@.pos <= j < old(self)@.pos + r.1 ==> hex_at(old(self)@.input, j),
    {
        proof {
            use_type_invariant(&*self);
        }
        let ghost s = self@.input;
        let ghost p0 = self@.pos as int;
        let ghost start = self@;
        proof {
            lemma_hex_run_bounds(s, p0, max as nat);
        }
        let mut value: u32 = 0;
        let mut count: usize = 0;
        while count < max
            invariant_except_break
                count <= max <= 6,
                same_but_pos(start, self@),
                self@.input == s,
                self@.pos == p0 + count,
                value == hex_value(s.subrange(p0, p0 + count), 0),
                value < hex_cap(count as int),
                hex_run(s, p0, max as nat) == count + hex_run(
                    s,
                    p0 + count,
                    (max - count) as nat,
                ),
                forall|j: int| p0 <= j < p0 + count ==> hex_at(s, j),
            ensures
                count <= max <= 6,
                same_but_pos(start, self@),
                self@.input == s,
                self@.pos == p0 + count,
                value == hex_value(s.subrange(p0, p0 + count), 0),
                value < hex_cap(count as int),
                hex_run(s, p0, max as nat) == count,
                forall|j: int| p0 <= j < p0 + count ==> hex_at(s, j),
            decreases max - count,
        {
            match self.peek(0) {
                Some(c) => {
                    if is_hex_digit(c) {
                        let ghost d = s.subrange(p0, p0 + count + 1);
                        assert(d.drop_last() =~= s.subrange(p0, p0 + count));
                        value = value * 16 + hex_value_of(c);
                        count = count + 1;
                        self.consume();
                    } else {
                        break;
                    }
                },
                None => {
                    break;
                },
            }
        }
        (value, count)
    }

    /// §4.3.7 Consume an escaped code point, the `\` having been consumed.
    fn consume_an_escaped_code_point(&mut self) -> (r: char)
        ensures
            same_but_pos(old(self)@, final(self)@),
            (r, final(self)@.pos as int) == escaped_code_point(
                old(self)@.input,
                old(self)@.pos as int,
            ),
    {
        let c = match self.consume() {
            Some(c) => c,
            None => return '\u{FFFD}',
        };
        if is_hex_digit(c) {
            self.reconsume();
            let (value, _count) = self.consume_hex_digits(6);
            if self.next_is(0, ' ') || self.next_is(0, '\t') || self.next_is(0, '\n') {
                self.consume();
            }
            if value == 0 || value > 0x10FFFF || (0xD800 <= value && value <= 0xDFFF) {
                '\u{FFFD}'
            } else {
                match char::from_u32(value) {
                    Some(ch) => ch,
                    None => '\u{FFFD}',
                }
            }
        } else if c == '\n' {
            self.reconsume();
            '\\'
        } else {
            c
        }
    }

    /// §4.3.12 Consume an ident sequence.
    fn consume_an_ident_sequence(&mut self) -> (r: Vec<char>)
        ensures
            same_but_pos(old(self)@, final(self)@),
            advanced(old(self)@, final(self)@),
            (r@, final(self)@.pos as int) == ident_seq(old(self)@.input, old(self)@.pos as int),
    {
        proof {
            use_type_invariant(&*self);
        }
        let ghost s = self@.input;
        let ghost p0 = self@.pos as int;
        let ghost start = self@;
        let mut result: Vec<char> = Vec::new();
        loop
            invariant
                start == old(self)@,
                s == start.input,
                p0 == start.pos,
                same_but_pos(start, self@),
                self@.input == s,
                p0 <= self@.pos <= s.len(),
                ident_seq(s, p0) == (
                    result@ + ident_seq(s, self@.pos as int).0,
                    ident_seq(s, self@.pos as int).1,
                ),
            decreases s.len() - self@.pos,
        {
            let ghost pp = self@.pos as int;
            match self.consume() {
                None => {
                    assert(result@ + Seq::<char>::empty() =~= result@);
                    return result;
                },
                Some(c) => {
                    if is_ident_code_point(c) {
                        let ghost rest = ident_seq(s, pp + 1).0;
                        result.push(c);
                        assert(result@.drop_last() + (seq![c] + rest) =~= result@ + rest);
                    } else if c == '\\' && self.is_valid_escape_next() {
                        proof {
                            lemma_escaped_bounds(s, pp + 1);
                        }
                        let e = self.consume_an_escaped_code_point();
                        let ghost rest = ident_seq(s, self@.pos as int).0;
                        result.push(e);
                        assert(result@.drop_last() + (seq![e] + rest) =~= result@ + rest);
                    } else {
                        self.reconsume();
                        assert(result@ + Seq::<char>::empty() =~= result@);
                        return result;
                    }
                },
            }
        }
    }

    /// §4.3.2 Consume comments, the opening `/*` having been consumed:
    /// consumes through the closing `*/` or to the end of the input.
    fn consume_comments_body(&mut self)
        ensures
            same_but_pos(old(self)@, final(self)@),
            advanced(old(self)@, final(self)@),
            final(self)@.pos == comment_end(old(self)@.input, old(self)@.pos as int),
    {
        proof {
            use_type_invariant(&*self);
        }
        let ghost s = self@.input;
        let ghost p0 = self@.pos as int;
        let ghost start = self@;
        loop
            invariant
                start == old(self)@,
                s == start.input,
                p0 == start.pos,
                same_but_pos(start, self@),
                p0 <= self@.pos <= s.len(),
                comment_end(s, p0) == comment_end(s, self@.pos as int),
            decreases s.len() - self@.pos,
        {
            match self.consume() {
                None => return ,
                Some(c) => {
                    if c == '*' && self.next_is(0, '/') {
                        self.consume();
                        return ;
                    }
                },
            }
        }
    }

    /// §4.3.5 Consume a string token, the opening `quote` having been
    /// consumed.
    fn consume_a_string_token(&mut self, quote: char) -> (t: Token)
        ensures
            same_but_pos(old(self)@, final(self)@),
            advanced(old(self)@, final(self)@),
            ({
                let r = string_body(old(self)@.input, old(self)@.pos as int, quote);
                &&& t@ == match r.0 {
                    Some(v) => TokenView::String(v),
                    None => TokenView::BadString,
                }
                &&& final(self)@.pos == r.1
            }),
    {
        proof {
            use_type_invariant(&*self);
        }
        let ghost s = self@.input;
        let ghost p0 = self@.pos as int;
        let ghost start = self@;
        let mut value: Vec<char> = Vec::new();
        loop
            invariant
                start == old(self)@,
                s == start.input,
                p0 == start.pos,
                same_but_pos(start, self@),
                p0 <= self@.pos <= s.len(),
                string_body(s, p0, quote) == prefix_with(
                    value@,
                    string_body(s, self@.pos as int, quote),
                ),
            decreases s.len() - self@.pos,
        {
            let ghost pp = self@.pos as int;
            match self.consume() {
                None => {
                    assert(value@ + Seq::<char>::empty() =~= value@);
                    return Token::String(string_from_chars(&value));
                },
                Some(c) => {
                    if c == quote {
                        assert(value@ + Seq::<char>::empty() =~= value@);
                        return Token::String(string_from_chars(&value));
                    } else if c == '\n' {
                        self.reconsume();
                        return Token::BadString;
                    } else if c == '\\' {
                        match self.peek(0) {
                            None => {
                                assert(value@ + Seq::<char>::empty() =~= value@);
                                assert(string_body(s, self@.pos as int, quote) == (
                                    Some(Seq::<char>::empty()),
                                    self@.pos as int,
                                ));
                            },
                            Some(n) => {
                                if n == '\n' {
                                    self.consume();
                                } else {
                                    proof {
                                        lemma_escaped_bounds(s, pp + 1);
                                    }
                                    let e = self.consume_an_escaped_code_point();
                                    proof {
                                        lemma_prefix_with_prepend(
                                            value@,
                                            e,
                                            string_body(s, self@.pos as int, quote),
                                        );
                                    }
                                    value.push(e);
                                }
                            },
                        }
                    } else {
                        proof {
                            lemma_prefix_with_prepend(
                                value@,
                                c,
                                string_body(s, pp + 1, quote),
                            );
                        }
                        value.push(c);
                    }
                },
            }
        }
    }

    /// §4.3.1 `#` branch, the `#` having been consumed.
    fn consume_a_hash_token(&mut self) -> (t: Token)
        ensures
            same_but_pos(old(self)@, final(self)@),
            advanced(old(self)@, final(self)@),
            (t@, final(self)@.pos as int) == hash_token(old(self)@.input, old(self)@.pos as int),
    {
        proof {
            use_type_invariant(&*self);
        }
        let next_is_ident = match self.peek(0) {
            Some(c) => is_ident_code_point(c),
            None => false,
        };
        let next_is_valid_escape = self.is_valid_escape_at(0);
        if !next_is_ident && !next_is_valid_escape {
            return Token::Delim('#');
        }
        let hash_type = if self.would_start_ident_sequence_at(0) {
            HashType::Id
        } else {
            HashType::Unrestricted
        };
        let name = self.consume_an_ident_sequence();
        Token::Hash(string_from_chars(&name), hash_type)
    }

    /// Consumes one code point, appending it to `repr`.
    fn consume_into(&mut self, repr: &mut Vec<char>)
        requires
            old(self)@.pos < old(self)@.input.len(),
        ensures
            same_but_pos(old(self)@, final(self)@),
            advanced(old(self)@, final(self)@),
            final(self)@.pos == old(self)@.pos + 1,
            final(repr)@ == old(repr)@ + old(self)@.input.subrange(
                old(self)@.pos as int,
                final(self)@.pos as int,
            ),
    {
        proof {
            use_type_invariant(&*self);
        }
        let ghost s = self@.input;
        let ghost p = self@.pos as int;
        let c = self.consume().unwrap();
        repr.push(c);
        assert(s.subrange(p, p + 1) =~= seq![c]);
    }

    /// §4.3.13 steps 2-3: an optional sign and the integer digits.
    fn consume_integer_part(&mut self, repr: &mut Vec<char>)
        ensures
            same_but_pos(old(self)@, final(self)@),
            advanced(old(self)@, final(self)@),
            final(self)@.pos == number_int_end(old(self)@.input, old(self)@.pos as int),
            final(repr)@ == old(repr)@ + old(self)@.input.subrange(
                old(self)@.pos as int,
                final(self)@.pos as int,
            ),
    {
        proof {
            use_type_invariant(&*self);
        }
        let ghost s = self@.input;
        let ghost p0 = self@.pos as int;
        let ghost r0 = repr@;
        if self.next_is(0, '+') || self.next_is(0, '-') {
            self.consume_into(repr);
        }
        let ghost p1 = self@.pos as int;
        proof {
            lemma_digit_run_bounds(s, p1);
        }
        self.consume_digits(repr);
        assert(s.subrange(p0, p1) + s.subrange(p1, self@.pos as int) =~= s.subrange(
            p0,
            self@.pos as int,
        ));
        assert(r0 + s.subrange(p0, p1) + s.subrange(p1, self@.pos as int) =~= r0 + s.subrange(
            p0,
            self@.pos as int,
        ));
    }

    /// §4.3.13 step 4: a `.` and digits, when a digit follows the `.`.
    fn consume_fraction_part(&mut self, repr: &mut Vec<char>) -> (r: bool)
        ensures
            same_but_pos(old(self)@, final(self)@),
            advanced(old(self)@, final(self)@),
            r == has_fraction(old(self)@.input, old(self)@.pos as int),
            final(self)@.pos == if r {
                digit_run_end(old(self)@.input, old(self)@.pos + 1int)
            } else {
                old(self)@.pos as int
            },
            final(repr)@ == old(repr)@ + old(self)@.input.subrange(
                old(self)@.pos as int,
                final(self)@.pos as int,
            ),
    {
        proof {
            use_type_invariant(&*self);
        }
        let ghost s = self@.input;
        let ghost p0 = self@.pos as int;
        let ghost r0 = repr@;
        if self.next_is(0, '.') && self.next_is_digit(1) {
            self.consume_into(repr);
            proof {
                lemma_digit_run_bounds(s, p0 + 1);
            }
            self.consume_digits(repr);
            assert(s.subrange(p0, p0 + 1) + s.subrange(p0 + 1, self@.pos as int) =~= s.subrange(
                p0,
                self@.pos as int,
            ));
            assert(r0 + s.subrange(p0, p0 + 1) + s.subrange(p0 + 1, self@.pos as int)
                =~= r0 + s.subrange(p0, self@.pos as int));
            true
        } else {
            assert(r0 + s.subrange(p0, p0) =~= r0);
            false
        }
    }

    /// §4.3.13 step 5: an `e` or `E`, an optional sign and digits, when a
    /// digit follows.
    fn consume_exponent_part(&mut self, repr: &mut Vec<char>) -> (r: bool)
        ensures
            same_but_pos(old(self)@, final(self)@),
            advanced(old(self)@, final(self)@),
            r == has_exponent(old(self)@.input, old(self)@.pos as int),
            final(self)@.pos == if r {
                digit_run_end(
                    old(self)@.input,
                    if sign_at(old(self)@.input, old(self)@.pos + 1int) {
                        old(self)@.pos + 2int
                    } else {
                        old(self)@.pos + 1int
                    },
                )
            } else {
                old(self)@.pos as int
            },
            final(repr)@ == old(repr)@ + old(self)@.input.subrange(
                old(self)@.pos as int,
                final(self)@.pos as int,
            ),
    {
        proof {
            use_type_invariant(&*self);
        }
        let ghost s = self@.input;
        let ghost p0 = self@.pos as int;
        let ghost r0 = repr@;
        if self.next_is(0, 'e') || self.next_is(0, 'E') {
            let valid_exp = if self.next_is(1, '+') || self.next_is(1, '-') {
                self.next_is_digit(2)
            } else {
                self.next_is_digit(1)
            };
            if valid_exp {
                self.consume_into(repr);
                if self.next_is(0, '+') || self.next_is(0, '-') {
                    self.consume_into(repr);
                    assert(s.subrange(p0, p0 + 1) + s.subrange(p0 + 1, p0 + 2) =~= s.subrange(
                        p0,
                        p0 + 2,
                    ));
                    assert(r0 + s.subrange(p0, p0 + 1) + s.subrange(p0 + 1, p0 + 2) =~= r0
                        + s.subrange(p0, p0 + 2));
                }
                let ghost p1 = self@.pos as int;
                proof {
                    lemma_digit_run_bounds(s, p1);
                }
                self.consume_digits(repr);
                assert(s.subrange(p0, p1) + s.subrange(p1, self@.pos as int) =~= s.subrange(
                    p0,
                    self@.pos as int,
                ));
                assert(r0 + s.subrange(p0, p1) + s.subrange(p1, self@.pos as int) =~= r0
                    + s.subrange(p0, self@.pos as int));
                return true;
            }
        }
        assert(r0 + s.subrange(p0, p0) =~= r0);
        false
    }

    /// §4.3.13 Consume a number: its representation and whether it is an
    /// integer.
    fn consume_a_number(&mut self) -> (r: (Vec<char>, bool))
        ensures
            same_but_pos(old(self)@, final(self)@),
            advanced(old(self)@, final(self)@),
            final(self)@.pos == number_end(old(self)@.input, old(self)@.pos as int).0,
            r.1 == number_end(old(self)@.input, old(self)@.pos as int).1,
            r.0@ == old(self)@.input.subrange(old(self)@.pos as int, final(self)@.pos as int),
    {
        proof {
            use_type_invariant(&*self);
        }
        let ghost s = self@.input;
        let ghost p0 = self@.pos as int;
        let mut repr: Vec<char> = Vec::new();
        self.consume_integer_part(&mut repr);
        let ghost p1 = self@.pos as int;
        let frac = self.consume_fraction_part(&mut repr);
        let ghost p2 = self@.pos as int;
        let exp = self.consume_exponent_part(&mut repr);
        assert(repr@ =~= s.subrange(p0, self@.pos as int)) by {
            assert(Seq::<char>::empty() + s.subrange(p0, p1) + s.subrange(p1, p2) + s.subrange(
                p2,
                self@.pos as int,
            ) =~= s.subrange(p0, self@.pos as int));
        }
        (repr, !frac && !exp)
    }

    /// §4.3.3 Consume a numeric token.
    fn consume_a_numeric_token(&mut self) -> (t: Token)
        ensures
            same_but_pos(old(self)@, final(self)@),
            advanced(old(self)@, final(self)@),
            (t@, final(self)@.pos as int) == numeric_token(
                old(self)@.input,
                old(self)@.pos as int,
            ),
    {
        proof {
            use_type_invariant(&*self);
        }
        let (repr, is_integer) = self.consume_a_number();
        let numeric = Numeric { repr: string_from_chars(&repr), is_integer };
        if self.would_start_ident_sequence_at(0) {
            let unit = self.consume_an_ident_sequence();
            return Token::Dimension(numeric, string_from_chars(&unit));
        }
        if self.next_is(0, '%') {
            self.consume();
            return Token::Percentage(numeric);
        }
        Token::Number(numeric)
    }

    /// §4.3.15 Consume the remnants of a bad url.
    fn consume_the_remnants_of_a_bad_url(&mut self)
        ensures
            same_but_pos(old(self)@, final(self)@),
            advanced(old(self)@, final(self)@),
            final(self)@.pos == bad_url_remnants(old(self)@.input, old(self)@.pos as int),
    {
        proof {
            use_type_invariant(&*self);
        }
        let ghost s = self@.input;
        let ghost p0 = self@.pos as int;
        let ghost start = self@;
        loop
            invariant
                start == old(self)@,
                s == start.input,
                p0 == start.pos,
                same_but_pos(start, self@),
                p0 <= self@.pos <= s.len(),
                bad_url_remnants(s, p0) == bad_url_remnants(s, self@.pos as int),
            decreases s.len() - self@.pos,
        {
            let ghost pp = self@.pos as int;
            match self.consume() {
                None => return ,
                Some(c) => {
                    if c == ')' {
                        return ;
                    } else if c == '\\' && self.is_valid_escape_next() {
                        proof {
                            lemma_escaped_bounds(s, pp + 1);
                        }
                        let _ = self.consume_an_escaped_code_point();
                    }
                },
            }
        }
    }

    /// §4.3.6 Consume a url token, `url(` having been consumed.
    fn consume_a_url_token(&mut self) -> (t: Token)
        ensures
            same_but_pos(old(self)@, final(self)@),
            advanced(old(self)@, final(self)@),
            (t@, final(self)@.pos as int) == url_token(old(self)@.input, old(self)@.pos as int),
    {
        proof {
            use_type_invariant(&*self);
        }
        let ghost s = self@.input;
        let ghost p0 = self@.pos as int;
        let ghost start = self@;
        let mut value: Vec<char> = Vec::new();
        proof {
            lemma_ws_run_bounds(s, p0);
        }
        self.consume_whitespace_run();
        let ghost q0 = self@.pos as int;
        assert(value@ + Seq::<char>::empty() =~= value@);
        loop
            invariant
                start == old(self)@,
                s == start.input,
                p0 == start.pos,
                same_but_pos(start, self@),
                p0 <= q0 <= self@.pos <= s.len(),
                url_body(s, q0) == prefix_with(value@, url_body(s, self@.pos as int)),
                q0 == ws_run_end(s, p0),
            decreases s.len() - self@.pos,
        {
            let ghost pp = self@.pos as int;
            match self.consume() {
                None => {
                    assert(value@ + Seq::<char>::empty() =~= value@);
                    return Token::Url(string_from_chars(&value));
                },
                Some(c) => {
                    if c == ')' {
                        assert(value@ + Seq::<char>::empty() =~= value@);
                        return Token::Url(string_from_chars(&value));
                    } else if is_whitespace(c) {
                        proof {
                            lemma_ws_run_bounds(s, pp + 1);
                        }
                        self.consume_whitespace_run();
                        match self.peek(0) {
                            Some(n) => {
                                if n == ')' {
                                    self.consume();
                                    assert(value@ + Seq::<char>::empty() =~= value@);
                                    return Token::Url(string_from_chars(&value));
                                } else {
                                    self.consume_the_remnants_of_a_bad_url();
                                    return Token::BadUrl;
                                }
                            },
                            None => {
                                assert(value@ + Seq::<char>::empty() =~= value@);
                                return Token::Url(string_from_chars(&value));
                            },
                        }
                    } else if c == '"' || c == '\'' || c == '(' || is_non_printable(c) {
                        self.consume_the_remnants_of_a_bad_url();
                        return Token::BadUrl;
                    } else if c == '\\' {
                        if self.is_valid_escape_next() {
                            proof {
                                lemma_escaped_bounds(s, pp + 1);
                            }
                            let e = self.consume_an_escaped_code_point();
                            proof {
                                lemma_prefix_with_prepend(value@, e, url_body(s, self@.pos as int));
                            }
                            value.push(e);
                        } else {
                            self.consume_the_remnants_of_a_bad_url();
                            return Token::BadUrl;
                        }
                    } else {
                        proof {
                            lemma_prefix_with_prepend(value@, c, url_body(s, pp + 1));
                        }
                        value.push(c);
                    }
                },
            }
        }
    }

    /// The ident sequence is ASCII case-insensitively `url`.
    fn is_url(name: &Vec<char>) -> (r: bool)
        ensures
            r == is_url_name(name@),
    {
        name.len() == 3 && (name[0] == 'u' || name[0] == 'U') && (name[1] == 'r' || name[1] == 'R')
            && (name[2] == 'l' || name[2] == 'L')
    }

    /// §4.3.4 Consume an ident-like token.
    fn consume_an_ident_like_token(&mut self) -> (t: Token)
        ensures
            same_but_pos(old(self)@, final(self)@),
            advanced(old(self)@, final(self)@),
            (t@, final(self)@.pos as int) == ident_like(old(self)@.input, old(self)@.pos as int),
    {
        proof {
            use_type_invariant(&*self);
        }
        let ghost s = self@.input;
        let name = self.consume_an_ident_sequence();
        if Self::is_url(&name) && self.next_is(0, '(') {
            self.consume();
            let ghost q0 = self@.pos as int;
            while self.next_is_whitespace(0) && self.next_is_whitespace(1)
                invariant
                    self@.input == s,
                    q0 <= self@.pos <= s.len(),
                    skip_ws_pairs(s, q0) == skip_ws_pairs(s, self@.pos as int),
                    same_but_pos(old(self)@, self@),
                decreases s.len() - self@.pos,
            {
                self.consume();
            }
            let is_quote_case = self.next_is(0, '"') || self.next_is(0, '\'') || (
            self.next_is_whitespace(0) && (self.next_is(1, '"') || self.next_is(1, '\'')));
            if is_quote_case {
                return Token::Function(string_from_chars(&name));
            }
            return self.consume_a_url_token();
        }
        if self.next_is(0, '(') {
            self.consume();
            return Token::Function(string_from_chars(&name));
        }
        Token::Ident(string_from_chars(&name))
    }

    /// §4.3.1 `@` branch, the `@` having been consumed.
    fn consume_an_at_keyword_token(&mut self) -> (t: Token)
        ensures
            same_but_pos(old(self)@, final(self)@),
            advanced(old(self)@, final(self)@),
            (t@, final(self)@.pos as int) == at_keyword_token(
                old(self)@.input,
                old(self)@.pos as int,
            ),
    {
        proof {
            use_type_invariant(&*self);
        }
        if self.would_start_ident_sequence_at(0) {
            let name = self.consume_an_ident_sequence();
            Token::AtKeyword(string_from_chars(&name))
        } else {
            Token::Delim('@')
        }
    }

    /// §4.3.14 Consume a unicode-range token, the position being at the `u`.
    fn consume_a_unicode_range_token(&mut self) -> (t: Token)
        requires
            starts_unicode_range_at(old(self)@.input, old(self)@.pos as int),
        ensures
            same_but_pos(old(self)@, final(self)@),
            advanced(old(self)@, final(self)@),
            (t@, final(self)@.pos as int) == unicode_range_token(
                old(self)@.input,
                old(self)@.pos as int,
            ),
    {
        proof {
            use_type_invariant(&*self);
        }
        let ghost s = self@.input;
        let ghost p0 = self@.pos as int;
        let ghost q = p0 + 2;
        self.consume();
        self.consume();
        let (v, k1) = self.consume_hex_digits(6);
        let ghost start = self@;
        proof {
            assert forall|i: int| 0 <= i < k1 implies spec_is_hex_digit(
                #[trigger] s.subrange(q, q + k1)[i],
            ) by {
                assert(hex_at(s, q + i));
            }
            lemma_hex_value_no_qmark(s.subrange(q, q + k1), 0, 15);
            lemma_qmark_run_bounds(s, q + k1, (6 - k1) as nat);
        }
        let mut lo: u32 = v;
        let mut hi: u32 = v;
        let mut count: usize = k1;
        while count < 6
            invariant_except_break
                k1 <= count <= 6,
                k1 == hex_run(s, q, 6),
                same_but_pos(start, self@),
                self@.input == s,
                self@.pos == q + count,
                lo == hex_value(s.subrange(q, q + count), 0),
                hi == hex_value(s.subrange(q, q + count), 15),
                lo < hex_cap(count as int),
                hi < hex_cap(count as int),
                qmark_run(s, q + k1, (6 - k1) as nat) == (count - k1) + qmark_run(
                    s,
                    q + count,
                    (6 - count) as nat,
                ),
            ensures
                k1 <= count <= 6,
                same_but_pos(start, self@),
                self@.input == s,
                self@.pos == q + count,
                lo == hex_value(s.subrange(q, q + count), 0),
                hi == hex_value(s.subrange(q, q + count), 15),
                qmark_run(s, q + k1, (6 - k1) as nat) == count - k1,
            decreases 6 - count,
        {
            if self.next_is(0, '?') {
                let ghost d = s.subrange(q, q + count + 1);
                assert(d.drop_last() =~= s.subrange(q, q + count));
                lo = lo * 16;
                hi = hi * 16 + 15;
                count = count + 1;
                self.consume();
            } else {
                break;
            }
        }
        if count > k1 {
            return Token::UnicodeRange(Some(lo), Some(hi));
        }
        if self.next_is(0, '-') && self.next_is_hex_digit(1) {
            self.consume();
            let (end, _k3) = self.consume_hex_digits(6);
            return Token::UnicodeRange(Some(lo), Some(end));
        }
        Token::UnicodeRange(Some(lo), Some(lo))
    }

    /// §4.3.1 `u`/`U` branch, the `u` having been consumed.
    fn consume_u_or_unicode_range(&mut self) -> (t: Token)
        requires
            old(self)@.pos > 0,
        ensures
            same_but_pos(old(self)@, final(self)@),
            final(self)@.pos <= final(self)@.input.len(),
            (t@, final(self)@.pos as int) == if old(self)@.unicode_ranges_allowed
                && starts_unicode_range_at(old(self)@.input, old(self)@.pos - 1) {
                unicode_range_token(old(self)@.input, old(self)@.pos - 1)
            } else {
                ident_like(old(self)@.input, old(self)@.pos - 1)
            },
    {
        self.reconsume();
        if self.unicode_ranges_allowed && self.would_start_unicode_range_at(0) {
            return self.consume_a_unicode_range_token();
        }
        self.consume_an_ident_like_token()
    }

    /// §4.3.1 after the code point `c` has been consumed, when it does not
    /// open a comment.
    fn dispatch_token(&mut self, c: char) -> (t: Token)
        requires
            old(self)@.pos > 0,
            c == old(self)@.input[old(self)@.pos - 1],
        ensures
            same_but_pos(old(self)@, final(self)@),
            final(self)@.pos <= final(self)@.input.len(),
            (t@, final(self)@.pos as int) == dispatch(
                old(self)@.input,
                old(self)@.pos - 1,
                c,
                old(self)@.unicode_ranges_allowed,
            ),
    {
        proof {
            use_type_invariant(&*self);
        }
        let ghost s = self@.input;
        let ghost q = self@.pos as int;
        if is_whitespace(c) {
            proof {
                lemma_ws_run_bounds(s, q);
            }
            self.consume_whitespace_run();
            Token::Whitespace
        } else if c == '"' || c == '\'' {
            self.consume_a_string_token(c)
        } else if c == '#' {
            self.consume_a_hash_token()
        } else if c == '(' {
            Token::OpenParen
        } else if c == ')' {
            Token::CloseParen
        } else if c == '-' {
            if self.starts_with_number(c) {
                self.reconsume();
                self.consume_a_numeric_token()
            } else if self.next_is(0, '-') && self.next_is(1, '>') {
                self.consume();
                self.consume();
                Token::Cdc
            } else {
                self.reconsume();
                if self.would_start_ident_sequence_at(0) {
                    self.consume_an_ident_like_token()
                } else {
                    self.consume();
                    Token::Delim(c)
                }
            }
        } else if c == '+' || c == '.' {
            if self.starts_with_number(c) {
                self.reconsume();
                self.consume_a_numeric_token()
            } else {
                Token::Delim(c)
            }
        } else {
            self.dispatch_other(c)
        }
    }

    /// The rest of the §4.3.1 dispatch.
    fn dispatch_other(&mut self, c: char) -> (t: Token)
        requires
            old(self)@.pos > 0,
            c == old(self)@.input[old(self)@.pos - 1],
            !spec_is_whitespace(c),
            c != '"' && c != '\'' && c != '#' && c != '(' && c != ')' && c != '-' && c != '+'
                && c != '.',
        ensures
            same_but_pos(old(self)@, final(self)@),
            final(self)@.pos <= final(self)@.input.len(),
            (t@, final(self)@.pos as int) == dispatch(
                old(self)@.input,
                old(self)@.pos - 1,
                c,
                old(self)@.unicode_ranges_allowed,
            ),
    {
        proof {
            use_type_invariant(&*self);
        }
        if c == '<' {
            if self.next_is(0, '!') && self.next_is(1, '-') && self.next_is(2, '-') {
                self.consume();
                self.consume();
                self.consume();
                Token::Cdo
            } else {
                Token::Delim(c)
            }
        } else if c == '@' {
            self.consume_an_at_keyword_token()
        } else if c == '[' {
            Token::OpenBracket
        } else if c == '\\' {
            if self.is_valid_escape_next() {
                self.reconsume();
                self.consume_an_ident_like_token()
            } else {
                Token::Delim('\\')
            }
        } else if c == ']' {
            Token::CloseBracket
        } else if c == '{' {
            Token::OpenBrace
        } else if c == '}' {
            Token::CloseBrace
        } else if is_digit(c) {
            self.reconsume();
            self.consume_a_numeric_token()
        } else if c == 'u' || c == 'U' {
            self.consume_u_or_unicode_range()
        } else if is_ident_start_code_point(c) {
            self.reconsume();
            self.consume_an_ident_like_token()
        } else if c == ':' {
            Token::Colon
        } else if c == ';' {
            Token::Semicolon
        } else if c == ',' {
            Token::Comma
        } else {
            Token::Delim(c)
        }
    }

    /// §4.3.1 Consume a token: skips comments, then dispatches on the next
    /// code point; at the end of the input, records that `<EOF-token>` has
    /// been emitted.
    fn consume_a_token(&mut self) -> (t: Token)
        ensures
            final(self)@.input == old(self)@.input,
            final(self)@.unicode_ranges_allowed == old(self)@.unicode_ranges_allowed,
            final(self)@.pos <= final(self)@.input.len(),
            (t@, final(self)@.pos as int) == consume_token(
                old(self)@.input,
                old(self)@.pos as int,
                old(self)@.unicode_ranges_allowed,
            ),
            t@ is Eof ==> final(self)@.eof_emitted && final(self)@.state == State::Eof,
            !(t@ is Eof) ==> final(self)@.eof_emitted == old(self)@.eof_emitted
                && final(self)@.state == old(self)@.state,
    {
        proof {
            use_type_invariant(&*self);
        }
        let ghost s = self@.input;
        let ghost p0 = self@.pos as int;
        let ghost u = self@.unicode_ranges_allowed;
        let ghost start = self@;
        loop
            invariant
                start == old(self)@,
                s == start.input,
                p0 == start.pos,
                u == start.unicode_ranges_allowed,
                same_but_pos(start, self@),
                self@.pos <= s.len(),
                consume_token(s, p0, u) == consume_token(s, self@.pos as int, u),
            decreases s.len() - self@.pos,
        {
            let ghost pp = self@.pos as int;
            let c = match self.consume() {
                Some(c) => c,
                None => {
                    self.eof_emitted = true;
                    self.state = State::Eof;
                    return Token::Eof;
                },
            };
            if c == '/' && self.next_is(0, '*') {
                self.consume();
                proof {
                    lemma_comment_end_bounds(s, pp + 2);
                }
                self.consume_comments_body();
                continue ;
            }
            return self.dispatch_token(c);
        }
    }
}

impl CssTokenizer {
    /// A tokenizer over `input`, after preprocessing: CR LF, lone CR and FF
    /// become LF.
    pub fn new(input: &str) -> (r: Self)
        ensures
            r@.input == preprocess(input@),
            r@.pos == 0,
            r@.state == State::Data,
            !r@.eof_emitted,
            !r@.unicode_ranges_allowed,
    {
        let input = preprocess_input(input);
        CssTokenizer {
            input,
            pos: 0,
            state: State::Data,
            eof_emitted: false,
            unicode_ranges_allowed: false,
        }
    }

    /// Tokenizes the whole of `input` and returns its tokens, without the
    /// trailing `<EOF-token>`.
    pub fn collect(input: &str) -> (r: Vec<Token>)
        ensures
            r@.map_values(|t: Token| t@) == tokens_from(preprocess(input@), 0, false).drop_last(),
    {
        let mut tz = Self::new(input);
        let ghost s = tz@.input;
        let mut out: Vec<Token> = Vec::new();
        loop
            invariant
                s == preprocess(input@),
                tz@.input == s,
                !tz@.eof_emitted,
                !tz@.unicode_ranges_allowed,
                tz@.pos <= s.len(),
                tokens_from(s, 0, false).drop_last() == out@.map_values(|t: Token| t@) + tokens_from(
                    s,
                    tz@.pos as int,
                    false,
                ).drop_last(),
            decreases s.len() - tz@.pos,
        {
            let ghost p = tz@.pos as int;
            proof {
                lemma_consume_token_progress(s, p, false);
                lemma_tokens_end_with_single_eof(s, p, false);
            }
            match tz.next_token() {
                Some(t) => {
                    if matches!(t, Token::Eof) {
                        assert(out@.map_values(|t: Token| t@) + Seq::<TokenView>::empty()
                            =~= out@.map_values(|t: Token| t@));
                        return out;
                    }
                    let ghost rest = tokens_from(s, tz@.pos as int, false);
                    proof {
                        lemma_tokens_end_with_single_eof(s, tz@.pos as int, false);
                    }
                    assert((seq![t@] + rest).drop_last() =~= seq![t@] + rest.drop_last());
                    out.push(t);
                    assert(out@.map_values(|t: Token| t@) =~= out@.drop_last().map_values(
                        |t: Token| t@,
                    ).push(t@));
                    assert(out@.drop_last().map_values(|t: Token| t@) + (seq![t@]
                        + rest.drop_last()) =~= out@.map_values(|t: Token| t@)
                        + rest.drop_last());
                },
                None => {
                    return out;
                },
            }
        }
    }
}

impl Tokenizer for CssTokenizer {
    /// After `<EOF-token>`, `next_token` gives `None` and changes nothing;
    /// before it, the token and the new position are those of §4.3.1 at the
    /// current position, and the EOF flag and state record `<EOF-token>`.
    open spec fn next_token_step(before: &Self, after: &Self, r: Option<Token>) -> bool {
        &&& after@.pos <= after@.input.len()
        &&& before@.eof_emitted ==> r is None && after@ == before@
        &&& !before@.eof_emitted ==> (r matches Some(t) && {
            &&& (t@, after@.pos as int) == consume_token(
                before@.input,
                before@.pos as int,
                before@.unicode_ranges_allowed,
            )
            &&& after@.input == before@.input
            &&& after@.unicode_ranges_allowed == before@.unicode_ranges_allowed
            &&& after@.eof_emitted == (t@ is Eof)
            &&& after@.state == if t@ is Eof {
                State::Eof
            } else {
                before@.state
            }
        })
    }

    fn next_token(&mut self) -> (r: Option<Token>) {
        proof {
            use_type_invariant(&*self);
        }
        if self.eof_emitted {
            return None;
        }
        Some(self.consume_a_token())
    }

    fn state(&self) -> (r: State)
        ensures
            r == self@.state,
    {
        self.state
    }

    fn set_state(&mut self, state: State)
        ensures
            final(self)@.state == state,
            final(self)@.eof_emitted == (state == State::Eof),
            final(self)@.input == old(self)@.input,
            final(self)@.pos == old(self)@.pos,
            final(self)@.unicode_ranges_allowed == old(self)@.unicode_ranges_allowed,
    {
        proof {
            use_type_invariant(&*self);
        }
        self.state = state;
        self.eof_emitted = state == State::Eof;
    }

    fn reset(&mut self)
        ensures
            final(self)@.pos == 0,
            final(self)@.state == State::Data,
            !final(self)@.eof_emitted,
            final(self)@.input == old(self)@.input,
            final(self)@.unicode_ranges_allowed == old(self)@.unicode_ranges_allowed,
    {
        self.pos = 0;
        self.state = State::Data;
        self.eof_emitted = false;
    }

    fn set_unicode_ranges_allowed(&mut self, allowed: bool)
        ensures
            final(self)@.unicode_ranges_allowed == allowed,
            final(self)@.input == old(self)@.input,
            final(self)@.pos == old(self)@.pos,
            final(self)@.state == old(self)@.state,
            final(self)@.eof_emitted == old(self)@.eof_emitted,
    {
        proof {
            use_type_invariant(&*self);
        }
        self.unicode_ranges_allowed = allowed;
    }

    fn position(&self) -> (r: usize)
        ensures
            r == self@.pos,
    {
        self.pos
    }

    fn next_token_with_span(&mut self) -> (r: Option<(Token, std::ops::Range<usize>)>)
        ensures
            final(self)@.pos <= final(self)@.input.len(),
            old(self)@.eof_emitted ==> r is None && final(self)@ == old(self)@,
            !old(self)@.eof_emitted ==> (r matches Some((t, span)) && {
                &&& span.start == old(self)@.pos
                &&& span.end == final(self)@.pos
                &&& (t@, final(self)@.pos as int) == consume_token(
                    old(self)@.input,
                    old(self)@.pos as int,
                    old(self)@.unicode_ranges_allowed,
                )
                &&& final(self)@.input == old(self)@.input
                &&& final(self)@.unicode_ranges_allowed == old(self)@.unicode_ranges_allowed
                &&& final(self)@.eof_emitted == (t@ is Eof)
                &&& final(self)@.state == if t@ is Eof {
                    State::Eof
                } else {
                    old(self)@.state
                }
            }),
    {
        let start = self.position();
        let token = self.next_token()?;
        let end = self.position();
        Some((token, start..end))
    }
}

} // verus!
