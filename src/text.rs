//! Character helpers shared by the path and text code.

use vstd::prelude::*;

verus! {

/// Characters that may stand in a storage path unchanged: ASCII digits and letters.
pub open spec fn is_path_char(c: char) -> bool {
    ('0' <= c && c <= '9') || ('a' <= c && c <= 'z') || ('A' <= c && c <= 'Z')
}

/// Tests a character against `is_path_char`.
pub fn path_char(c: char) -> (r: bool)
    ensures
        r == is_path_char(c),
{
    ('0' <= c && c <= '9') || ('a' <= c && c <= 'z') || ('A' <= c && c <= 'Z')
}

/// Relies on `String::push`: the character is appended to the string.
#[verifier::external_body]
pub(crate) fn push_char(s: &mut String, c: char)
    ensures
        final(s)@ == old(s)@.push(c),
{
    s.push(c)
}

} // verus!
