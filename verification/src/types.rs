//! Token types of the CSS Syntax tokenizer (CSS Syntax Module Level 3 §4.1)
//! and their mathematical views.

use vstd::prelude::*;

verus! {

/// A CSS token (§4.1).
///
/// Each variant corresponds to one token type of the §4.1 railroad
/// diagrams.
#[derive(Debug, Clone, PartialEq)]
pub enum Token {
    /// `<ident-token>`: a decoded ident sequence such as `color`.
    Ident(String),
    /// `<function-token>`: an identifier immediately followed by `(`; the
    /// value is the name without the parenthesis.
    Function(String),
    /// `<at-keyword-token>`: `@` followed by an ident sequence; the value is
    /// the keyword without `@`.
    AtKeyword(String),
    /// `<hash-token>`: `#` followed by ident code points or an escape.
    Hash(String, HashType),
    /// `<string-token>`: the decoded contents of a quoted string.
    String(String),
    /// `<bad-string-token>`: a string interrupted by an unescaped newline.
    BadString,
    /// `<url-token>`: the decoded contents of an unquoted `url(...)`.
    Url(String),
    /// `<bad-url-token>`: an unquoted `url(...)` with an invalid character.
    BadUrl,
    /// `<delim-token>`: a single code point not consumed by any other token.
    Delim(char),
    /// `<number-token>`.
    Number(Numeric),
    /// `<percentage-token>`: a number immediately followed by `%`.
    Percentage(Numeric),
    /// `<dimension-token>`: a number immediately followed by a unit.
    Dimension(Numeric, String),
    /// `<unicode-range-token>`: start and end of a `U+` range.
    UnicodeRange(Option<u32>, Option<u32>),
    /// `<whitespace-token>`: a maximal run of whitespace code points.
    Whitespace,
    /// `<comment-token>`: the contents of a comment. The tokenizer skips
    /// comments, so it never produces this variant itself.
    Comment(String),
    /// `<colon-token>`.
    Colon,
    /// `<semicolon-token>`.
    Semicolon,
    /// `<comma-token>`.
    Comma,
    /// `<[-token>`.
    OpenBracket,
    /// `<]-token>`.
    CloseBracket,
    /// `<(-token>`.
    OpenParen,
    /// `<)-token>`.
    CloseParen,
    /// `<{-token>`.
    OpenBrace,
    /// `<}-token>`.
    CloseBrace,
    /// `<CDO-token>`: the literal `<!--`.
    Cdo,
    /// `<CDC-token>`: the literal `-->`.
    Cdc,
    /// `<EOF-token>`: emitted once when the input is exhausted.
    Eof,
}

/// The type flag of a `<hash-token>`.
#[derive(Debug, Clone, Copy, PartialEq, Eq, Structural)]
pub enum HashType {
    /// `#` followed by code points that would start an ident sequence.
    Id,
    /// Any other hash, such as `#123`.
    Unrestricted,
}

/// The numeric part of `<number-token>`, `<percentage-token>` and
/// `<dimension-token>` (§4.3.13).
///
/// `repr` holds the exact source text of the number (sign, digits,
/// fraction and exponent, as consumed); `is_integer` is `false` exactly
/// when that text has a fractional part or an exponent. The value of the
/// number is the decimal number that `repr` denotes.
///
/// `==` compares the representations and flags, not the values: `+5` and
/// `5` are different `Numeric`s although they denote the same number.
#[derive(Debug, Clone, PartialEq)]
pub struct Numeric {
    /// The consumed representation of the number.
    pub repr: String,
    /// Whether the representation has neither a fraction nor an exponent.
    pub is_integer: bool,
}

/// The state of the tokenizer: consuming tokens, or past `<EOF-token>`.
#[derive(Debug, Clone, Copy, PartialEq, Eq, Structural, Default)]
pub enum State {
    /// Ready to consume the next token.
    #[default]
    Data,
    /// `<EOF-token>` has been emitted; `next_token` returns `None` until the
    /// state is set back to [`State::Data`].
    Eof,
}

/// The mathematical value of a [`Numeric`].
pub struct NumericView {
    pub repr: Seq<char>,
    pub is_integer: bool,
}

/// The mathematical value of a [`Token`]: strings are taken as sequences of
/// code points.
pub enum TokenView {
    Ident(Seq<char>),
    Function(Seq<char>),
    AtKeyword(Seq<char>),
    Hash(Seq<char>, HashType),
    String(Seq<char>),
    BadString,
    Url(Seq<char>),
    BadUrl,
    Delim(char),
    Number(NumericView),
    Percentage(NumericView),
    Dimension(NumericView, Seq<char>),
    UnicodeRange(Option<u32>, Option<u32>),
    Whitespace,
    Comment(Seq<char>),
    Colon,
    Semicolon,
    Comma,
    OpenBracket,
    CloseBracket,
    OpenParen,
    CloseParen,
    OpenBrace,
    CloseBrace,
    Cdo,
    Cdc,
    Eof,
}

impl View for Numeric {
    type V = NumericView;

    open spec fn view(&self) -> NumericView {
        NumericView { repr: self.repr@, is_integer: self.is_integer }
    }
}

impl View for Token {
    type V = TokenView;

    open spec fn view(&self) -> TokenView {
        match self {
            Token::Ident(s) => TokenView::Ident(s@),
            Token::Function(s) => TokenView::Function(s@),
            Token::AtKeyword(s) => TokenView::AtKeyword(s@),
            Token::Hash(s, t) => TokenView::Hash(s@, *t),
            Token::String(s) => TokenView::String(s@),
            Token::BadString => TokenView::BadString,
            Token::Url(s) => TokenView::Url(s@),
            Token::BadUrl => TokenView::BadUrl,
            Token::Delim(c) => TokenView::Delim(*c),
            Token::Number(n) => TokenView::Number(n@),
            Token::Percentage(n) => TokenView::Percentage(n@),
            Token::Dimension(n, u) => TokenView::Dimension(n@, u@),
            Token::UnicodeRange(a, b) => TokenView::UnicodeRange(*a, *b),
            Token::Whitespace => TokenView::Whitespace,
            Token::Comment(s) => TokenView::Comment(s@),
            Token::Colon => TokenView::Colon,
            Token::Semicolon => TokenView::Semicolon,
            Token::Comma => TokenView::Comma,
            Token::OpenBracket => TokenView::OpenBracket,
            Token::CloseBracket => TokenView::CloseBracket,
            Token::OpenParen => TokenView::OpenParen,
            Token::CloseParen => TokenView::CloseParen,
            Token::OpenBrace => TokenView::OpenBrace,
            Token::CloseBrace => TokenView::CloseBrace,
            Token::Cdo => TokenView::Cdo,
            Token::Cdc => TokenView::Cdc,
            Token::Eof => TokenView::Eof,
        }
    }
}

} // verus!
