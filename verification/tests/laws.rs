//! The tokenizer's laws on concrete inputs, and its edge cases.

use muskitty_css_tokenizer::preprocess::preprocess_input;
use muskitty_css_tokenizer::{CssTokenizer, HashType, State, Token, Tokenizer};

fn all_tokens(tz: &mut CssTokenizer) -> Vec<Token> {
    let mut out = Vec::new();
    while let Some(t) = tz.next_token() {
        out.push(t);
    }
    out
}

#[test]
fn eof_exactly_once_and_last() {
    let mut tz = CssTokenizer::new("a: b /* c */ 1px");
    let toks = all_tokens(&mut tz);
    assert_eq!(toks.last(), Some(&Token::Eof));
    assert_eq!(toks.iter().filter(|t| **t == Token::Eof).count(), 1);
    assert!(tz.next_token().is_none());
    assert_eq!(tz.state(), State::Eof);
}

#[test]
fn every_token_consumes_input() {
    let input = "url(x) \"s\" #h @k 1e3% -->";
    let mut tz = CssTokenizer::new(input);
    let n = input.chars().count();
    let mut count = 0;
    while let Some((t, span)) = tz.next_token_with_span() {
        count += 1;
        if t == Token::Eof {
            assert_eq!(span.end, n);
        } else {
            assert!(span.start < span.end);
        }
    }
    assert!(count <= n + 1);
}

#[test]
fn spans_are_contiguous() {
    let mut tz = CssTokenizer::new("a{b:c}");
    let mut last_end = 0;
    while let Some((_, span)) = tz.next_token_with_span() {
        assert_eq!(span.start, last_end);
        last_end = span.end;
    }
    assert_eq!(last_end, 6);
}

#[test]
fn reset_replays_the_same_tokens() {
    let mut tz = CssTokenizer::new("color: #f00 !important");
    let first = all_tokens(&mut tz);
    tz.reset();
    assert_eq!(tz.position(), 0);
    assert_eq!(tz.state(), State::Data);
    let second = all_tokens(&mut tz);
    assert_eq!(first, second);
}

#[test]
fn set_state_data_reenables_after_eof() {
    let mut tz = CssTokenizer::new("a");
    all_tokens(&mut tz);
    assert!(tz.next_token().is_none());
    tz.set_state(State::Data);
    assert_eq!(tz.state(), State::Data);
    assert_eq!(tz.next_token(), Some(Token::Eof));
    assert!(tz.next_token().is_none());
}

#[test]
fn set_state_eof_stops_production() {
    let mut tz = CssTokenizer::new("a");
    tz.set_state(State::Eof);
    assert_eq!(tz.state(), State::Eof);
    assert!(tz.next_token().is_none());
    assert!(tz.next_token_with_span().is_none());
    tz.set_state(State::Data);
    assert_eq!(tz.next_token(), Some(Token::Ident("a".to_string())));
}

#[test]
fn comments_never_become_tokens() {
    let toks = CssTokenizer::collect("/**/a/* b */ /*c");
    assert_eq!(toks, vec![Token::Ident("a".to_string()), Token::Whitespace]);
}

#[test]
fn whitespace_token_is_maximal() {
    let toks = CssTokenizer::collect("a \t\n\n  b");
    assert_eq!(
        toks,
        vec![Token::Ident("a".to_string()), Token::Whitespace, Token::Ident("b".to_string())]
    );
}

#[test]
fn unicode_range_needs_the_flag() {
    let toks = CssTokenizer::collect("u+0-7F");
    assert!(!toks.iter().any(|t| matches!(t, Token::UnicodeRange(_, _))));
    let mut tz = CssTokenizer::new("u+0-7F");
    tz.set_unicode_ranges_allowed(true);
    assert_eq!(tz.next_token(), Some(Token::UnicodeRange(Some(0), Some(0x7F))));
}

#[test]
fn unicode_range_all_question_marks() {
    let mut tz = CssTokenizer::new("U+??????");
    tz.set_unicode_ranges_allowed(true);
    assert_eq!(tz.next_token(), Some(Token::UnicodeRange(Some(0), Some(0xFFFFFF))));
    assert_eq!(tz.next_token(), Some(Token::Eof));
}

#[test]
fn unicode_range_stops_after_six_digits() {
    let mut tz = CssTokenizer::new("U+1234567");
    tz.set_unicode_ranges_allowed(true);
    assert_eq!(tz.next_token(), Some(Token::UnicodeRange(Some(0x123456), Some(0x123456))));
    assert_eq!(tz.position(), 8);
}

#[test]
fn preprocessing_is_idempotent_and_leaves_no_cr_or_ff() {
    let once: String = preprocess_input("a\r\r\nb\u{000C}\n\rc").into_iter().collect();
    assert_eq!(once, "a\n\nb\n\n\nc");
    let twice: String = preprocess_input(&once).into_iter().collect();
    assert_eq!(once, twice);
    assert!(!once.contains('\r') && !once.contains('\u{000C}'));
}

#[test]
fn preprocessing_leaves_plain_input_unchanged() {
    let s = "a b\nc";
    assert_eq!(preprocess_input(s), s.chars().collect::<Vec<char>>());
}

#[test]
fn backslash_before_eof() {
    // `a\` then EOF: the backslash is not a valid escape, so it is a delim.
    assert_eq!(
        CssTokenizer::collect("a\\"),
        vec![Token::Ident("a".to_string()), Token::Delim('\\')]
    );
    // A string ending in `\` then EOF keeps what it has.
    assert_eq!(CssTokenizer::collect("\"ab\\"), vec![Token::String("ab".to_string())]);
}

#[test]
fn escape_above_max_code_point_is_replacement_char() {
    assert_eq!(CssTokenizer::collect("\\110000"), vec![Token::Ident("\u{FFFD}".to_string())]);
    assert_eq!(CssTokenizer::collect("\\10FFFF"), vec![Token::Ident("\u{10FFFF}".to_string())]);
}

#[test]
fn escape_hex_stops_at_six_digits() {
    assert_eq!(CssTokenizer::collect("\\0000410"), vec![Token::Ident("A0".to_string())]);
}

#[test]
fn bad_url_remnants_skip_escaped_paren() {
    assert_eq!(CssTokenizer::collect("url(a b\\)c) d"), vec![
        Token::BadUrl,
        Token::Whitespace,
        Token::Ident("d".to_string()),
    ]);
}

#[test]
fn url_with_non_printable_is_bad() {
    assert_eq!(CssTokenizer::collect("url(a\u{0001})"), vec![Token::BadUrl]);
}

#[test]
fn url_is_case_insensitive() {
    assert_eq!(CssTokenizer::collect("URL(x)"), vec![Token::Url("x".to_string())]);
    assert_eq!(CssTokenizer::collect("uRl(x)"), vec![Token::Url("x".to_string())]);
}

#[test]
fn url_two_spaces_then_quote_is_function() {
    assert_eq!(CssTokenizer::collect("url(  'x')"), vec![
        Token::Function("url".to_string()),
        Token::Whitespace,
        Token::String("x".to_string()),
        Token::CloseParen,
    ]);
}

#[test]
fn hash_with_escape_start_is_id() {
    assert_eq!(
        CssTokenizer::collect("#\\31 a"),
        vec![Token::Hash("1a".to_string(), HashType::Id)]
    );
}

#[test]
fn number_representations() {
    match &CssTokenizer::collect("+.5e-3")[0] {
        Token::Number(n) => {
            assert_eq!(n.repr, "+.5e-3");
            assert!(!n.is_integer);
        },
        other => panic!("expected Number, got {:?}", other),
    }
    // `1e` is not an exponent: the `e` starts a unit.
    match &CssTokenizer::collect("1e")[0] {
        Token::Dimension(n, u) => {
            assert_eq!(n.repr, "1");
            assert!(n.is_integer);
            assert_eq!(u, "e");
        },
        other => panic!("expected Dimension, got {:?}", other),
    }
    // `1.` keeps the `.` out of the number.
    assert_eq!(CssTokenizer::collect("1.").len(), 2);
}

#[test]
fn double_hyphen_starts_an_ident() {
    assert_eq!(CssTokenizer::collect("--1"), vec![Token::Ident("--1".to_string())]);
    assert_eq!(CssTokenizer::collect("--"), vec![Token::Ident("--".to_string())]);
    assert_eq!(CssTokenizer::collect("--;"), vec![
        Token::Ident("--".to_string()),
        Token::Semicolon,
    ]);
    // `-` then a digit is still a number, and `-->` still a CDC token.
    assert!(matches!(&CssTokenizer::collect("-1")[0], Token::Number(_)));
    assert_eq!(CssTokenizer::collect("-->"), vec![Token::Cdc]);
}

#[test]
fn cdo_needs_all_four_code_points() {
    assert_eq!(CssTokenizer::collect("<!-"), vec![
        Token::Delim('<'),
        Token::Delim('!'),
        Token::Delim('-'),
    ]);
}

#[test]
fn bad_string_then_rest() {
    assert_eq!(CssTokenizer::collect("'a\nb'"), vec![
        Token::BadString,
        Token::Whitespace,
        Token::Ident("b".to_string()),
        Token::String(String::new()),
    ]);
}

#[test]
fn preprocessing_through_new() {
    for input in ["a\r\nb", "a\rb", "a\u{000C}b"] {
        let mut tz = CssTokenizer::new(input);
        let toks = all_tokens(&mut tz);
        assert_eq!(toks, vec![
            Token::Ident("a".to_string()),
            Token::Whitespace,
            Token::Ident("b".to_string()),
            Token::Eof,
        ]);
        // The normalized input has three code points: `a`, LF, `b`.
        assert_eq!(tz.position(), 3);
    }
    // A CR LF inside a string is one newline: the string is bad, then one
    // whitespace token follows.
    assert_eq!(CssTokenizer::collect("'a\r\n"), vec![Token::BadString, Token::Whitespace]);
}
