use vstd::prelude::*;

verus! {

/// What `char::is_whitespace` answers for a character.
pub uninterp spec fn whitespace_class(c: char) -> bool;

/// What `char::is_alphabetic` answers for a character.
pub uninterp spec fn alphabetic_class(c: char) -> bool;

/// What `char::is_alphanumeric` answers for a character.
pub uninterp spec fn alphanumeric_class(c: char) -> bool;

/// Relies on `char::is_whitespace` (Unicode `White_Space`): the answer
/// depends on the character alone.
#[verifier::external_body]
pub(crate) fn is_whitespace(c: char) -> (r: bool)
    ensures
        r == whitespace_class(c),
{
    c.is_whitespace()
}

/// Relies on `char::is_alphabetic` (Unicode `Alphabetic`): the answer depends
/// on the character alone.
#[verifier::external_body]
pub(crate) fn is_alphabetic(c: char) -> (r: bool)
    ensures
        r == alphabetic_class(c),
{
    c.is_alphabetic()
}

/// Relies on `char::is_alphanumeric`, documented as `is_alphabetic() || is_numeric()`.
#[verifier::external_body]
pub(crate) fn is_alphanumeric(c: char) -> (r: bool)
    ensures
        r == alphanumeric_class(c),
        alphabetic_class(c) ==> r,
{
    c.is_alphanumeric()
}

} // verus!
