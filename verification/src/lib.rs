//! A CSS tokenizer: the tokenization stage of CSS Syntax Module Level 3 (§4.3).
//!
//! - `types`: the tokens and their mathematical views;
//! - `chars`: the code point classes of §4.2;
//! - `preprocess`: newline normalization of the input;
//! - `model`: the §4.3 algorithms as functions on sequences of code points;
//! - `impls`: [`CssTokenizer`], proved to compute what `model` states;
//! - `trait_def`: the [`Tokenizer`] protocol;
//! - `progress`, `laws`: properties of tokenization as a whole;
//! - `token_laws`: what each kind of token is, in terms of the input.

mod types;
pub mod chars;
pub mod preprocess;
pub mod model;
mod text;
mod impls;
mod trait_def;
pub mod progress;
pub mod laws;
pub mod token_laws;

pub use impls::{CssTokenizer, TokenizerView};
pub use trait_def::Tokenizer;
pub use types::{HashType, Numeric, NumericView, State, Token, TokenView};
