//! The two string operations of std that the library needs and vstd leaves
//! unspecified. Each wrapper holds one std call and nothing else.

use vstd::prelude::*;

verus! {

/// Relies on `String::push`: appends the given character to the end of the
/// string.
#[verifier::external_body]
pub fn push_char(s: &mut String, c: char)
    ensures
        final(s)@ == old(s)@ + seq![c],
{
    s.push(c)
}

/// Relies on `char::from_u32`: returns the character with the given code
/// point, or `None` exactly when the value is no Unicode scalar value (a
/// surrogate, or above `0x10FFFF`).
#[verifier::external_body]
pub fn char_from_u32(v: u32) -> (r: Option<char>)
    ensures
        r is Some <==> (v < 0xD800 || (0xE000 <= v && v <= 0x10FFFF)),
        r matches Some(c) ==> c as int == v as int,
{
    char::from_u32(v)
}

} // verus!
