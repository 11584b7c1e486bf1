//! The tokenizer protocol (CSS Syntax §4.3).

use vstd::prelude::*;
use crate::types::{State, Token};

verus! {

/// A CSS tokenizer: consumes code points from its input and emits tokens,
/// ending with `<EOF-token>`.
pub trait Tokenizer {
    /// What `next_token` does: it may take the tokenizer from `before` to
    /// `after` and return `r`. Each tokenizer defines it.
    spec fn next_token_step(before: &Self, after: &Self, r: Option<Token>) -> bool;

    /// Consumes and returns the next token (§4.3.1); `Some(Token::Eof)` once
    /// the input is exhausted, and `None` after that.
    fn next_token(&mut self) -> (r: Option<Token>)
        ensures
            Self::next_token_step(&*old(self), &*final(self), r),
    ;

    /// The current state.
    fn state(&self) -> State;

    /// Sets the state: [`State::Eof`] stops token production, so that
    /// `next_token` returns `None`; [`State::Data`] re-enables it.
    fn set_state(&mut self, state: State);

    /// Returns to the start of the same input, in [`State::Data`].
    fn reset(&mut self);

    /// Sets whether `U+` starts a `<unicode-range-token>` (§4.3.1); off by
    /// default.
    fn set_unicode_ranges_allowed(&mut self, allowed: bool);

    /// The current position, as an index into the code points of the input.
    /// A tokenizer that does not track positions reports 0.
    fn position(&self) -> (r: usize)
        default_ensures
            r == 0,
    {
        0
    }

    /// The next token together with the range `[start, end)` of positions
    /// that producing it consumed: the token (or `None`) is what `next_token`
    /// gives, `start` is the position before it and `end` the position after.
    fn next_token_with_span(&mut self) -> (r: Option<(Token, std::ops::Range<usize>)>)
        default_ensures
            Self::next_token_step(
                &*old(self),
                &*final(self),
                match r {
                    Some((t, _)) => Some(t),
                    None => None,
                },
            ),
            r matches Some((_, span)) ==> call_ensures(Self::position, (&*old(self),), span.start),
            r matches Some((_, span)) ==> call_ensures(Self::position, (&*final(self),), span.end),
    {
        let start = self.position();
        let token = self.next_token()?;
        let end = self.position();
        Some((token, start..end))
    }
}

} // verus!
