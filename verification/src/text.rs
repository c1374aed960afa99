//! Specifications for the operations on text that the compiler takes from
//! the standard library and for which no specification is at hand.

use vstd::prelude::*;

verus! {

/// `String::push` appends one character to the end of the string. This is
/// stated here, not proved: the standard library documents it.
pub assume_specification[ String::push ](s: &mut String, c: char)
    ensures
        final(s)@ == old(s)@.push(c),
;

} // verus!
