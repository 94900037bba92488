//! Small string-building helper shared by the decoder (names) and the
//! interface reporter.

use vstd::prelude::*;

verus! {

/// Relies on `String::push`: appends exactly the one character to the end
/// of the string.
#[verifier::external_body]
pub fn push_char(s: &mut String, c: char)
    ensures
        final(s)@ == old(s)@.push(c),
{
    s.push(c);
}

/// Relies on `char::from_u32`: for a Unicode scalar value (below the
/// surrogate range at 0xD800, or from 0xE000 up to 0x10FFFF) it returns
/// `Some` of the character with that value.  The precondition keeps the
/// call on that range, so the fallback arm is never taken.
#[verifier::external_body]
pub fn char_from_u32(v: u32) -> (r: char)
    requires
        v < 0xd800 || (0xe000 <= v && v <= 0x10ffff),
    ensures
        r == v as char,
{
    match char::from_u32(v) {
        Some(c) => c,
        None => '\u{fffd}',
    }
}

} // verus!
