//! Building text one character at a time.

use vstd::prelude::*;

verus! {

/// `String::push`: the character is appended to the end of the text, and
/// the rest of the text stays as it was.
#[verifier::external_body]
pub(crate) fn push_char(text: &mut String, character: char)
    ensures
        final(text)@ == old(text)@.push(character),
{
    text.push(character);
}

} // verus!
