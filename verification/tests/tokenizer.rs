//! The tokenizer's unit scenarios: each input with the tokens it gives.

use muskitty_css_tokenizer::preprocess::preprocess_input;
use muskitty_css_tokenizer::{CssTokenizer, HashType, Numeric, Token, Tokenizer};

/// The kind, value and integer flag of a numeric token, with the value taken
/// as the decimal number that the token's representation denotes.
#[derive(Debug, PartialEq)]
enum Num {
    Number(f64, bool),
    Percentage(f64, bool),
    Dimension(f64, bool, String),
}

/// The value of a number representation: the digits before the exponent,
/// scaled by ten to the power of the exponent.
fn value_of(n: &Numeric) -> f64 {
    let repr = n.repr.as_str();
    let (number_part, exponent_part) = match repr.find(|c| c == 'e' || c == 'E') {
        Some(i) => (&repr[..i], &repr[i + 1..]),
        None => (repr, ""),
    };
    let mut value: f64 = number_part.parse().unwrap_or(0.0);
    if !exponent_part.is_empty() {
        let exp: i32 = exponent_part.parse().unwrap_or(0);
        value *= 10.0f64.powi(exp);
    }
    value
}

fn numeric_of(t: &Token) -> Option<Num> {
    match t {
        Token::Number(n) => Some(Num::Number(value_of(n), n.is_integer)),
        Token::Percentage(n) => Some(Num::Percentage(value_of(n), n.is_integer)),
        Token::Dimension(n, u) => Some(Num::Dimension(value_of(n), n.is_integer, u.clone())),
        _ => None,
    }
}


#[test]
fn empty_input_emits_eof_only() {
    let mut tz = CssTokenizer::new("");
    assert!(matches!(tz.next_token(), Some(Token::Eof)));
    assert!(tz.next_token().is_none());
}

#[test]
fn whitespace_collapses_runs() {
    let tokens = CssTokenizer::collect("   \t\n  ");
    assert_eq!(tokens.len(), 1, "whitespace run → single token");
    assert!(matches!(tokens[0], Token::Whitespace));
}

#[test]
fn simple_punctuation_tokens() {
    let tokens = CssTokenizer::collect(":;,.{}[]()");
    assert_eq!(tokens.len(), 10);
    assert!(matches!(tokens[0], Token::Colon));
    assert!(matches!(tokens[1], Token::Semicolon));
    assert!(matches!(tokens[2], Token::Comma));
    assert!(matches!(tokens[3], Token::Delim('.')));
    assert!(matches!(tokens[4], Token::OpenBrace));
    assert!(matches!(tokens[5], Token::CloseBrace));
    assert!(matches!(tokens[6], Token::OpenBracket));
    assert!(matches!(tokens[7], Token::CloseBracket));
    assert!(matches!(tokens[8], Token::OpenParen));
    assert!(matches!(tokens[9], Token::CloseParen));
}

#[test]
fn close_paren_is_emitted() {
    let tokens = CssTokenizer::collect(")");
    assert_eq!(tokens.len(), 1);
    assert!(matches!(tokens[0], Token::CloseParen));
}

#[test]
fn unknown_delim_chars() {
    let tokens = CssTokenizer::collect("^~`>");
    assert_eq!(tokens.len(), 4);
    assert!(matches!(tokens[0], Token::Delim('^')));
    assert!(matches!(tokens[1], Token::Delim('~')));
    assert!(matches!(tokens[2], Token::Delim('`')));
    assert!(matches!(tokens[3], Token::Delim('>')));
}

#[test]
fn preprocessing_normalizes_cr_lf_ff() {
    // CR LF → single LF
    assert_eq!(preprocess_input("a\r\nb"), vec!['a', '\n', 'b']);
    // Lone CR → LF
    assert_eq!(preprocess_input("a\rb"), vec!['a', '\n', 'b']);
    // FF → LF
    assert_eq!(preprocess_input("a\u{000C}b"), vec!['a', '\n', 'b']);
}

#[test]
fn eof_emitted_once() {
    // A punctuation code point, then <EOF-token> once, then nothing.
    let mut tz = CssTokenizer::new(",");
    let t1 = tz.next_token();
    let t2 = tz.next_token();
    let t3 = tz.next_token();
    assert!(matches!(t1, Some(Token::Comma)));
    assert!(matches!(t2, Some(Token::Eof)));
    assert!(t3.is_none());
}

#[test]
fn block_comment_is_skipped() {
    // §4.3.2: `/* ... */` is consumed and no token is emitted.
    let tokens = CssTokenizer::collect("/* hello */:/*x*/;");
    assert_eq!(tokens.len(), 2);
    assert!(matches!(tokens[0], Token::Colon));
    assert!(matches!(tokens[1], Token::Semicolon));
}

#[test]
fn unterminated_comment_consumes_to_eof() {
    // §4.3.2: EOF before `*/` is a parse error; we consume to EOF.
    let tokens = CssTokenizer::collect("/* unfinished");
    assert_eq!(tokens.len(), 0, "unterminated comment → no tokens");
}

#[test]
fn comment_between_tokens() {
    // A comment between two punctuation tokens is consumed without a token.
    let tokens = CssTokenizer::collect(":/*c*/;");
    assert_eq!(tokens.len(), 2);
    assert!(matches!(tokens[0], Token::Colon));
    assert!(matches!(tokens[1], Token::Semicolon));
}

#[test]
fn cdo_token_emitted() {
    // §4.3.1: `<!--` → <CDO-token>
    let tokens = CssTokenizer::collect("<!--");
    assert_eq!(tokens.len(), 1);
    assert!(matches!(tokens[0], Token::Cdo));
}

#[test]
fn cdc_token_emitted() {
    // §4.3.1: `-->` → <CDC-token>
    let tokens = CssTokenizer::collect("-->");
    assert_eq!(tokens.len(), 1);
    assert!(matches!(tokens[0], Token::Cdc));
}

#[test]
fn cdo_cdc_wrapping_stylesheet() {
    // Legacy CSS 1/2.1 stylesheet wrapping.
    // `<!-- : ; -->`
    // tokens: Cdo, WS, Colon, WS, Semicolon, WS, Cdc = 7
    let tokens = CssTokenizer::collect("<!-- : ; -->");
    assert_eq!(tokens.len(), 7);
    assert!(matches!(tokens[0], Token::Cdo));
    assert!(matches!(tokens[1], Token::Whitespace));
    assert!(matches!(tokens[2], Token::Colon));
    assert!(matches!(tokens[3], Token::Whitespace));
    assert!(matches!(tokens[4], Token::Semicolon));
    assert!(matches!(tokens[5], Token::Whitespace));
    assert!(matches!(tokens[6], Token::Cdc));
}

#[test]
fn less_than_alone_is_delim() {
    // §4.3.1: `<` not followed by `!-` → <delim-token>
    let tokens = CssTokenizer::collect("< ");
    assert_eq!(tokens.len(), 2);
    assert!(matches!(tokens[0], Token::Delim('<')));
    assert!(matches!(tokens[1], Token::Whitespace));
}

#[test]
fn hyphen_alone_is_delim() {
    // §4.3.1: `-` not followed by number/ident/`->` → <delim-token>
    let tokens = CssTokenizer::collect("- ");
    assert_eq!(tokens.len(), 2);
    assert!(matches!(tokens[0], Token::Delim('-')));
    assert!(matches!(tokens[1], Token::Whitespace));
}

// ── ident / function / at-keyword / hash ──

#[test]
fn simple_ident() {
    let tokens = CssTokenizer::collect("color");
    assert_eq!(tokens.len(), 1);
    assert!(matches!(&tokens[0], Token::Ident(s) if s == "color"));
}

#[test]
fn ident_with_hyphen_prefix() {
    let tokens = CssTokenizer::collect("-webkit-flex");
    assert_eq!(tokens.len(), 1);
    assert!(matches!(&tokens[0], Token::Ident(s) if s == "-webkit-flex"));
}

#[test]
fn ident_with_double_hyphen() {
    // §4.3.9: `--` starts an ident sequence (custom properties).
    let tokens = CssTokenizer::collect("--my-var");
    assert_eq!(tokens.len(), 1);
    assert!(matches!(&tokens[0], Token::Ident(s) if s == "--my-var"));
}

#[test]
fn ident_with_underscore() {
    let tokens = CssTokenizer::collect("_private");
    assert_eq!(tokens.len(), 1);
    assert!(matches!(&tokens[0], Token::Ident(s) if s == "_private"));
}

#[test]
fn ident_with_escape() {
    // §4.3.7: `\26` → '&' (U+0026)
    let tokens = CssTokenizer::collect("color\\26 B");
    assert_eq!(tokens.len(), 1);
    assert!(matches!(&tokens[0], Token::Ident(s) if s == "color&B"));
}

#[test]
fn function_token() {
    let tokens = CssTokenizer::collect("translate(");
    assert_eq!(tokens.len(), 1);
    assert!(matches!(&tokens[0], Token::Function(s) if s == "translate"));
}

#[test]
fn at_keyword_token() {
    let tokens = CssTokenizer::collect("@media");
    assert_eq!(tokens.len(), 1);
    assert!(matches!(&tokens[0], Token::AtKeyword(s) if s == "media"));
}

#[test]
fn at_keyword_with_hyphen() {
    let tokens = CssTokenizer::collect("@-webkit-keyframes");
    assert_eq!(tokens.len(), 1);
    assert!(matches!(&tokens[0], Token::AtKeyword(s) if s == "-webkit-keyframes"));
}

#[test]
fn at_sign_alone_is_delim() {
    // §4.3.1: `@` not followed by ident-start → <delim-token>
    let tokens = CssTokenizer::collect("@ ");
    assert_eq!(tokens.len(), 2);
    assert!(matches!(tokens[0], Token::Delim('@')));
    assert!(matches!(tokens[1], Token::Whitespace));
}

#[test]
fn hash_id_type() {
    // §4.3.1 / §4.3.4: `#main` → <hash-token> with type "id"
    let tokens = CssTokenizer::collect("#main");
    assert_eq!(tokens.len(), 1);
    match &tokens[0] {
        Token::Hash(s, t) => {
            assert_eq!(s, "main");
            assert_eq!(*t, HashType::Id);
        }
        _ => panic!("expected Hash, got {:?}", tokens[0]),
    }
}

#[test]
fn hash_unrestricted_type() {
    // §4.3.1 L801-826 + §4.3.4: `#123` → next `1` is an ident code
    // point (digits are ident code points per §4.2), so a hash-token
    // is created. `123` does not would-start-an-ident-sequence (digit
    // is not ident-start), so type is "unrestricted". The value is
    // "123" (consume_an_ident_sequence consumes all ident code points).
    let tokens = CssTokenizer::collect("#123");
    assert_eq!(tokens.len(), 1);
    match &tokens[0] {
        Token::Hash(s, t) => {
            assert_eq!(s, "123");
            assert_eq!(*t, HashType::Unrestricted);
        }
        _ => panic!("expected Hash, got {:?}", tokens[0]),
    }
}

#[test]
fn hash_hex_color_is_unrestricted() {
    // §4.3.4: `#ff00aa` → starts with `f` which IS ident-start, so
    // this is actually type "id" (the hex digits form a valid ident).
    let tokens = CssTokenizer::collect("#ff00aa");
    assert_eq!(tokens.len(), 1);
    match &tokens[0] {
        Token::Hash(s, t) => {
            assert_eq!(s, "ff00aa");
            assert_eq!(*t, HashType::Id);
        }
        _ => panic!("expected Hash, got {:?}", tokens[0]),
    }
}

#[test]
fn backslash_escape_in_ident() {
    // §4.3.7: `\` followed by non-hex → literal char. Use `z` (not
    // `b`, which is a hex digit and would decode to U+000B).
    let tokens = CssTokenizer::collect("a\\z");
    assert_eq!(tokens.len(), 1);
    assert!(matches!(&tokens[0], Token::Ident(s) if s == "az"));
}

#[test]
fn backslash_alone_is_delim() {
    // §4.3.1: `\` not followed by valid escape (EOF or newline) →
    // <delim-token>
    let tokens = CssTokenizer::collect("\\");
    assert_eq!(tokens.len(), 1);
    assert!(matches!(tokens[0], Token::Delim('\\')));
}

#[test]
fn backslash_newline_is_delim() {
    // §4.3.8: `\` followed by newline is not a valid escape.
    let tokens = CssTokenizer::collect("\\\n");
    assert_eq!(tokens.len(), 2);
    assert!(matches!(tokens[0], Token::Delim('\\')));
    assert!(matches!(tokens[1], Token::Whitespace));
}

#[test]
fn declaration_with_ident_and_value() {
    let tokens = CssTokenizer::collect("color: red");
    assert_eq!(tokens.len(), 4);
    assert!(matches!(&tokens[0], Token::Ident(s) if s == "color"));
    assert!(matches!(tokens[1], Token::Colon));
    assert!(matches!(tokens[2], Token::Whitespace));
    assert!(matches!(&tokens[3], Token::Ident(s) if s == "red"));
}

#[test]
fn unicode_escape_in_ident() {
    // §4.3.7 L1223-1225: `\000026` → '&' (U+0026); after 6 hex digits,
    // if next is whitespace, consume it. So `\000026 B` → the space is
    // consumed as trailing whitespace, `B` joins the ident sequence →
    // single token Ident("&B").
    let tokens = CssTokenizer::collect("\\000026 B");
    assert_eq!(tokens.len(), 1);
    assert!(matches!(&tokens[0], Token::Ident(s) if s == "&B"));
}

#[test]
fn null_escape_becomes_replacement_char() {
    // §4.3.7: `\0` → U+FFFD (NULL is not allowed)
    let tokens = CssTokenizer::collect("\\0");
    assert_eq!(tokens.len(), 1);
    assert!(matches!(&tokens[0], Token::Ident(s) if s == "\u{FFFD}"));
}

#[test]
fn surrogate_escape_becomes_replacement_char() {
    // §4.3.7: `\D800` → U+FFFD (surrogates not allowed)
    let tokens = CssTokenizer::collect("\\D800");
    assert_eq!(tokens.len(), 1);
    assert!(matches!(&tokens[0], Token::Ident(s) if s == "\u{FFFD}"));
}

// ── `#` without an ident code point or escape is a delim (§4.3.1) ──

#[test]
fn hash_alone_is_delim() {
    // §4.3.1 L824-826: `#` followed by EOF → next is not ident code
    // point, not valid escape → return delim-token with value `#`.
    let tokens = CssTokenizer::collect("#");
    assert_eq!(tokens.len(), 1);
    assert!(matches!(tokens[0], Token::Delim('#')));
}

#[test]
fn hash_followed_by_space_is_delim() {
    // §4.3.1 L824-826: `#` followed by space (not ident code point,
    // not valid escape) → delim-token with value `#`.
    let tokens = CssTokenizer::collect("# ");
    assert_eq!(tokens.len(), 2);
    assert!(matches!(tokens[0], Token::Delim('#')));
    assert!(matches!(tokens[1], Token::Whitespace));
}

#[test]
fn hash_followed_by_at_is_delim() {
    // §4.3.1 L824-826: `#` followed by `@` (not ident code point,
    // not valid escape) → delim-token with value `#`.
    let tokens = CssTokenizer::collect("#@");
    assert_eq!(tokens.len(), 2);
    assert!(matches!(tokens[0], Token::Delim('#')));
    assert!(matches!(tokens[1], Token::Delim('@')));
}

// ── §4.3.5 string + bad-string ──

#[test]
fn string_double_quoted() {
    // §4.3.5: "hello" → String("hello")
    let tokens = CssTokenizer::collect("\"hello\"");
    assert_eq!(tokens.len(), 1);
    assert!(matches!(&tokens[0], Token::String(s) if s == "hello"));
}

#[test]
fn string_single_quoted() {
    // §4.3.5: 'hello' → String("hello")
    let tokens = CssTokenizer::collect("'hello'");
    assert_eq!(tokens.len(), 1);
    assert!(matches!(&tokens[0], Token::String(s) if s == "hello"));
}

#[test]
fn string_with_escape() {
    // §4.3.5 + §4.3.7: "a\z" → String("az") (z is non-hex → literal)
    let tokens = CssTokenizer::collect("\"a\\z\"");
    assert_eq!(tokens.len(), 1);
    assert!(matches!(&tokens[0], Token::String(s) if s == "az"));
}

#[test]
fn string_unterminated_eof() {
    // §4.3.5 L1101-1104: EOF before closing quote → parse error,
    // return string-token with value accumulated so far.
    let tokens = CssTokenizer::collect("\"hello");
    assert_eq!(tokens.len(), 1);
    assert!(matches!(&tokens[0], Token::String(s) if s == "hello"));
}

#[test]
fn string_unescaped_newline_is_bad_string() {
    // §4.3.5 L1106-1110: unescaped newline → parse error, reconsume,
    // return bad-string. The reconsumed newline is then tokenized as
    // whitespace by the next consume_a_token call.
    let tokens = CssTokenizer::collect("\"\n");
    assert_eq!(tokens.len(), 2);
    assert!(matches!(tokens[0], Token::BadString));
    assert!(matches!(tokens[1], Token::Whitespace));
}

#[test]
fn string_line_continuation() {
    // §4.3.5 L1117-1119: backslash followed by newline → line
    // continuation (newline consumed, no char appended).
    let tokens = CssTokenizer::collect("\"a\\\nb\"");
    assert_eq!(tokens.len(), 1);
    assert!(matches!(&tokens[0], Token::String(s) if s == "ab"));
}

#[test]
fn string_hex_escape() {
    // §4.3.5 + §4.3.7: "\26" → String("&") (U+0026)
    let tokens = CssTokenizer::collect("\"\\26\"");
    assert_eq!(tokens.len(), 1);
    assert!(matches!(&tokens[0], Token::String(s) if s == "&"));
}

// ── §4.3.3/§4.3.10/§4.3.13 number/percentage/dimension ──

#[test]
fn number_integer() {
    let tokens = CssTokenizer::collect("42");
    assert_eq!(tokens.len(), 1);
    assert_eq!(numeric_of(&tokens[0]), Some(Num::Number(42.0, true)));
}

#[test]
fn number_decimal() {
    let tokens = CssTokenizer::collect("3.5");
    assert_eq!(tokens.len(), 1);
    assert_eq!(numeric_of(&tokens[0]), Some(Num::Number(3.5, false)));
}

#[test]
fn number_signed() {
    let tokens = CssTokenizer::collect("-5");
    assert_eq!(tokens.len(), 1);
    assert_eq!(numeric_of(&tokens[0]), Some(Num::Number(-5.0, true)));
}

#[test]
fn number_exponent() {
    // §4.3.13: 1e3 → 1.0 * 10^3 = 1000.0, type "number"
    let tokens = CssTokenizer::collect("1e3");
    assert_eq!(tokens.len(), 1);
    assert_eq!(numeric_of(&tokens[0]), Some(Num::Number(1000.0, false)));
}

#[test]
fn number_decimal_exponent() {
    // §4.3.13: 1.5e2 → 1.5 * 10^2 = 150.0, type "number"
    let tokens = CssTokenizer::collect("1.5e2");
    assert_eq!(tokens.len(), 1);
    assert_eq!(numeric_of(&tokens[0]), Some(Num::Number(150.0, false)));
}

#[test]
fn percentage_token() {
    let tokens = CssTokenizer::collect("50%");
    assert_eq!(tokens.len(), 1);
    assert_eq!(numeric_of(&tokens[0]), Some(Num::Percentage(50.0, true)));
}

#[test]
fn dimension_px() {
    let tokens = CssTokenizer::collect("10px");
    assert_eq!(tokens.len(), 1);
    assert_eq!(
        numeric_of(&tokens[0]),
        Some(Num::Dimension(10.0, true, "px".to_string()))
    );
}

#[test]
fn dimension_em() {
    let tokens = CssTokenizer::collect("1.5em");
    assert_eq!(tokens.len(), 1);
    assert_eq!(
        numeric_of(&tokens[0]),
        Some(Num::Dimension(1.5, false, "em".to_string()))
    );
}

#[test]
fn dimension_signed() {
    let tokens = CssTokenizer::collect("-30deg");
    assert_eq!(tokens.len(), 1);
    assert_eq!(
        numeric_of(&tokens[0]),
        Some(Num::Dimension(-30.0, true, "deg".to_string()))
    );
}

#[test]
fn plus_sign_number() {
    let tokens = CssTokenizer::collect("+5");
    assert_eq!(tokens.len(), 1);
    assert_eq!(numeric_of(&tokens[0]), Some(Num::Number(5.0, true)));
}

#[test]
fn dot_starts_number() {
    let tokens = CssTokenizer::collect(".5");
    assert_eq!(tokens.len(), 1);
    assert_eq!(numeric_of(&tokens[0]), Some(Num::Number(0.5, false)));
}

// ── §4.3.4 url( special case + §4.3.6 Url + §4.3.15 BadUrl ──

#[test]
fn url_unquoted_simple() {
    // §4.3.6: url(foo) → Url("foo")
    let tokens = CssTokenizer::collect("url(foo)");
    assert_eq!(tokens.len(), 1);
    assert_eq!(tokens[0], Token::Url("foo".to_string()));
}

#[test]
fn url_unquoted_with_spaces() {
    // §4.3.6: leading/trailing whitespace consumed; url( foo ) → Url("foo")
    let tokens = CssTokenizer::collect("url( foo )");
    assert_eq!(tokens.len(), 1);
    assert_eq!(tokens[0], Token::Url("foo".to_string()));
}

#[test]
fn url_empty() {
    // §4.3.6: url() → Url("")
    let tokens = CssTokenizer::collect("url()");
    assert_eq!(tokens.len(), 1);
    assert_eq!(tokens[0], Token::Url(String::new()));
}

#[test]
fn url_eof_unterminated() {
    // §4.3.6 L1161-1164: EOF → parse error, return url-token with value so far
    let tokens = CssTokenizer::collect("url(foo");
    assert_eq!(tokens.len(), 1);
    assert_eq!(tokens[0], Token::Url("foo".to_string()));
}

#[test]
fn url_quoted_is_function() {
    // §4.3.4 L1058-1063: url("foo") → Function("url"); the body
    // `"foo")` remains in the stream → String("foo") + CloseParen.
    let tokens = CssTokenizer::collect("url(\"foo\")");
    assert_eq!(tokens.len(), 3);
    assert_eq!(tokens[0], Token::Function("url".to_string()));
    assert_eq!(tokens[1], Token::String("foo".to_string()));
    assert_eq!(tokens[2], Token::CloseParen);
}

#[test]
fn url_single_quoted_is_function() {
    // §4.3.4 L1058-1063: url('foo') → Function("url") + String + CloseParen
    let tokens = CssTokenizer::collect("url('foo')");
    assert_eq!(tokens.len(), 3);
    assert_eq!(tokens[0], Token::Function("url".to_string()));
    assert_eq!(tokens[1], Token::String("foo".to_string()));
    assert_eq!(tokens[2], Token::CloseParen);
}

#[test]
fn url_ws_then_quote_is_function() {
    // §4.3.4 L1058-1063: url( "foo") → whitespace+quote → Function.
    // L1056-1057 only collapses when *two* consecutive whitespace
    // follow `(`; here only one space precedes `"`, so it is NOT
    // consumed and becomes a Whitespace token.
    let tokens = CssTokenizer::collect("url( \"foo\")");
    assert_eq!(tokens.len(), 4);
    assert_eq!(tokens[0], Token::Function("url".to_string()));
    assert_eq!(tokens[1], Token::Whitespace);
    assert_eq!(tokens[2], Token::String("foo".to_string()));
    assert_eq!(tokens[3], Token::CloseParen);
}

#[test]
fn url_with_escape() {
    // §4.3.6 + §4.3.7: url(foo\29 bar) → \29 consumes trailing space,
    // decodes to `)`, then `bar` appended → Url("foo)bar")
    let tokens = CssTokenizer::collect("url(foo\\29 bar)");
    assert_eq!(tokens.len(), 1);
    assert_eq!(tokens[0], Token::Url("foo)bar".to_string()));
}

#[test]
fn url_bad_paren_in_unquoted() {
    // §4.3.6 L1177-1185: `(` in unquoted url → BadUrl
    let tokens = CssTokenizer::collect("url(foo(bar)");
    assert_eq!(tokens.len(), 1);
    assert_eq!(tokens[0], Token::BadUrl);
}

#[test]
fn url_bad_quote_in_unquoted() {
    // §4.3.6 L1177-1185: `"` in unquoted url → BadUrl
    let tokens = CssTokenizer::collect("url(foo\"bar)");
    assert_eq!(tokens.len(), 1);
    assert_eq!(tokens[0], Token::BadUrl);
}

// ── §4.3.1 unicode_ranges_allowed + §4.3.11 + §4.3.14 ──

#[test]
fn unicode_range_disabled_by_default() {
    // §4.3.1 L782-783: default unicode_ranges_allowed=false.
    // `U+1234` → `U` ident-start → Ident("U") (`+` stops ident seq);
    // then `+1234` → starts_with_number (`+`+digit) → Number(1234).
    let tokens = CssTokenizer::collect("U+1234");
    assert_eq!(tokens.len(), 2);
    assert_eq!(tokens[0], Token::Ident("U".to_string()));
    assert_eq!(numeric_of(&tokens[1]), Some(Num::Number(1234.0, true)));
}

#[test]
fn unicode_range_simple() {
    // §4.3.14: U+1234 → UnicodeRange(0x1234, 0x1234)
    let mut tz = CssTokenizer::new("U+1234");
    tz.set_unicode_ranges_allowed(true);
    let t = tz.next_token().unwrap();
    assert_eq!(t, Token::UnicodeRange(Some(0x1234), Some(0x1234)));
}

#[test]
fn unicode_range_question_marks() {
    // §4.3.14 step 3: U+12?? → start=0x1200 (?→0), end=0x12FF (?→F)
    let mut tz = CssTokenizer::new("U+12??");
    tz.set_unicode_ranges_allowed(true);
    let t = tz.next_token().unwrap();
    assert_eq!(t, Token::UnicodeRange(Some(0x1200), Some(0x12FF)));
}

#[test]
fn unicode_range_range() {
    // §4.3.14 step 5: U+12-34FF → start=0x12, end=0x34FF
    let mut tz = CssTokenizer::new("U+12-34FF");
    tz.set_unicode_ranges_allowed(true);
    let t = tz.next_token().unwrap();
    assert_eq!(t, Token::UnicodeRange(Some(0x12), Some(0x34FF)));
}

#[test]
fn unicode_range_max_hex() {
    // §4.3.14: U+10FFFF → UnicodeRange(0x10FFFF, 0x10FFFF)
    let mut tz = CssTokenizer::new("U+10FFFF");
    tz.set_unicode_ranges_allowed(true);
    let t = tz.next_token().unwrap();
    assert_eq!(t, Token::UnicodeRange(Some(0x10FFFF), Some(0x10FFFF)));
}

#[test]
fn unicode_range_lowercase_u() {
    // §4.3.11: lowercase u also triggers; u+abc → UnicodeRange(0xABC, 0xABC)
    let mut tz = CssTokenizer::new("u+abc");
    tz.set_unicode_ranges_allowed(true);
    let t = tz.next_token().unwrap();
    assert_eq!(t, Token::UnicodeRange(Some(0xABC), Some(0xABC)));
}
