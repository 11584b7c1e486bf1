# muskitty_css_tokenizer

A CSS tokenizer (CSS Syntax Module Level 3, §4.3) written in Verus.

- `src/model.rs` states each tokenization algorithm as a function on the
  sequence of code points and a position.
- `src/impls.rs` holds `CssTokenizer`, whose methods are proved to compute
  exactly what the model states; `next_token` returns the model's token and
  position for the current state.
- `src/preprocess.rs` normalizes newlines; `src/progress.rs` and
  `src/laws.rs` prove properties of tokenization as a whole: every token but
  `<EOF-token>` consumes input, `<EOF-token>` comes exactly once and last,
  comments are skipped, whitespace runs become one token, unicode-range
  tokens come only when allowed, preprocessing is idempotent.
- Numbers are kept as their exact representation (`Numeric::repr`);
  `app/lib.rs` converts them to `f64`.
