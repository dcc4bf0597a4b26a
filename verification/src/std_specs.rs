//! Contracts for the two functions of the standard library that decoding
//! calls and that come without one. Verus takes both on trust: they say what
//! the documentation of the standard library says, and nothing proves them.

use vstd::prelude::*;

verus! {

/// `char::from_u32` gives the scalar value with the given number, and `None`
/// for a surrogate or a number above U+10FFFF.
pub assume_specification[ char::from_u32 ](i: u32) -> (c: Option<char>)
    ensures
        (i < 0xD800 || 0xE000 <= i <= 0x10FFFF) ==> c == Some(i as char),
        !(i < 0xD800 || 0xE000 <= i <= 0x10FFFF) ==> c is None,
;

/// `String::push` appends one scalar value to the end of the string.
pub assume_specification[ String::push ](s: &mut String, c: char)
    ensures
        final(s)@ == old(s)@.push(c),
;

} // verus!
