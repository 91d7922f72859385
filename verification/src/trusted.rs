//! What the library takes on trust: the contracts of two functions of the
//! standard library, which are stated here and proved nowhere.
use vstd::prelude::*;

verus! {

/// `String::push` appends the character to the end of the string.
pub assume_specification[ std::string::String::push ](text: &mut std::string::String, c: char)
    ensures
        final(text)@ == old(text)@.push(c),
;

/// `char::from_u32` gives the character with the given code, and gives none
/// exactly for the codes that are no Unicode scalar value: the surrogates
/// and what lies above `0x10FFFF`.
pub assume_specification[ char::from_u32 ](code: u32) -> (c: Option<char>)
    ensures
        c is Some <==> (code <= 0xD7FF || 0xE000 <= code <= 0x10FFFF),
        c matches Some(found) ==> found as u32 == code,
;

} // verus!
