//! Specifications of the std text primitives that the tokenizer builds on.

use vstd::prelude::*;

verus! {

/// `String::push` appends one code point to the end of the string.
pub assume_specification[ std::string::String::push ](string: &mut std::string::String, ch: char)
    ensures
        final(string)@ == old(string)@.push(ch),
;

/// `char::from_u32` gives the code point with scalar value `i` when `i` is a
/// Unicode scalar value (at most U+10FFFF and not a surrogate), and `None`
/// otherwise.
pub assume_specification[ char::from_u32 ](i: u32) -> (r: Option<char>)
    ensures
        r is Some <==> (i <= 0x10FFFF && !(0xD800 <= i <= 0xDFFF)),
        r matches Some(c) ==> c == i as char,
;

/// The string whose code points are those of `v`.
pub fn string_from_chars(v: &Vec<char>) -> (s: String)
    ensures
        s@ == v@,
{
    let mut s = String::new();
    let mut i: usize = 0;
    while i < v.len()
        invariant
            i <= v.len(),
            s@ == v@.subrange(0, i as int),
        decreases v.len() - i,
    {
        s.push(v[i]);
        i += 1;
        assert(s@ =~= v@.subrange(0, i as int));
    }
    assert(v@.subrange(0, v.len() as int) =~= v@);
    s
}

} // verus!
