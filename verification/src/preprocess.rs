//! Input preprocessing of CSS Syntax: newlines are normalized to LF.

use vstd::prelude::*;
use vstd::std_specs::iter::IteratorSpec;

verus! {

/// Every CR LF pair, lone CR and FF becomes a single LF.
pub open spec fn preprocess(s: Seq<char>) -> Seq<char>
    decreases s.len(),
{
    if s.len() == 0 {
        Seq::empty()
    } else if s[0] == '\r' {
        if s.len() > 1 && s[1] == '\n' {
            seq!['\n'] + preprocess(s.subrange(2, s.len() as int))
        } else {
            seq!['\n'] + preprocess(s.drop_first())
        }
    } else if s[0] == '\u{0C}' {
        seq!['\n'] + preprocess(s.drop_first())
    } else {
        seq![s[0]] + preprocess(s.drop_first())
    }
}

/// The preprocessing of what follows a CR that has already been turned into
/// an LF: an LF right after it is dropped.
pub open spec fn preprocess_after_cr(rest: Seq<char>) -> Seq<char> {
    if rest.len() > 0 && rest[0] == '\n' {
        preprocess(rest.drop_first())
    } else {
        preprocess(rest)
    }
}

/// The code points of `input` after preprocessing.
pub fn preprocess_input(input: &str) -> (out: Vec<char>)
    ensures
        out@ == preprocess(input@),
{
    broadcast use vstd::string::group_string_axioms;

    let mut out: Vec<char> = Vec::new();
    let mut chars = input.chars();
    let mut after_cr = false;
    loop
        invariant
            chars.obeys_prophetic_iter_laws(),
            chars.decrease() is Some,
            preprocess(input@) == out@ + if after_cr {
                preprocess_after_cr(chars.remaining())
            } else {
                preprocess(chars.remaining())
            },
        decreases chars.decrease()->0,
    {
        let ghost rest = chars.remaining();
        match chars.next() {
            None => {
                assert(out@ + Seq::<char>::empty() =~= out@);
                return out;
            },
            Some(c) => {
                let ghost tail = rest.drop_first();
                if after_cr && c == '\n' {
                    after_cr = false;
                } else if c == '\r' {
                    assert(tail.len() > 0 && tail[0] == '\n' ==> rest.subrange(2, rest.len() as int)
                        =~= tail.drop_first());
                    out.push('\n');
                    assert(out@.drop_last() + (seq!['\n'] + preprocess_after_cr(tail)) =~= out@
                        + preprocess_after_cr(tail));
                    after_cr = true;
                } else if c == '\u{0C}' {
                    out.push('\n');
                    assert(out@.drop_last() + (seq!['\n'] + preprocess(tail)) =~= out@
                        + preprocess(tail));
                    after_cr = false;
                } else {
                    out.push(c);
                    assert(out@.drop_last() + (seq![c] + preprocess(tail)) =~= out@ + preprocess(
                        tail,
                    ));
                    after_cr = false;
                }
            },
        }
    }
}

} // verus!
