//! Trusted bridges to the two pieces of `std` text handling that the
//! formatters need: making a `char` from a scalar value and appending a
//! `char` to a `String`.
use vstd::prelude::*;
use vstd::utf8::is_scalar;

verus! {

/// Relies on char::from_u32: it returns `Some` exactly on Unicode scalar
/// values (everything below 0x110000 except the surrogate range), and the
/// returned character carries that value.
#[verifier::external_body]
pub(crate) fn char_from_u32(v: u32) -> (r: Option<char>)
    ensures
        r is Some <==> is_scalar(v),
        r matches Some(c) ==> c as u32 == v,
{
    char::from_u32(v)
}

/// Relies on String::push: it appends exactly the given character.
#[verifier::external_body]
pub(crate) fn push_char(s: &mut String, c: char)
    ensures
        final(s)@ == old(s)@.push(c),
{
    s.push(c)
}

} // verus!
