//! Building text one character at a time.

use vstd::prelude::*;

verus! {

/// `String::push` of std puts one character at the end of the text.
#[verifier::external_body]
pub(crate) fn push_char(text: &mut String, c: char)
    ensures
        final(text)@ == old(text)@.push(c),
{
    text.push(c);
}

} // verus!
