//! Small string-building helpers over std functions that vstd gives no
//! specification to.

use vstd::prelude::*;

verus! {

/// Relies on String::push: appends exactly the given character.
#[verifier::external_body]
pub fn push_char(s: &mut String, c: char)
    ensures
        final(s)@ == old(s)@.push(c),
{
    s.push(c)
}

/// Relies on char::from_u32: `Some` exactly for Unicode scalar values
/// (everything except the surrogate range and values above 0x10FFFF),
/// and the returned character has the given scalar value.
#[verifier::external_body]
pub fn char_from_u32(n: u32) -> (r: Option<char>)
    ensures
        r is Some <==> (n < 0xD800 || (0xE000 <= n && n <= 0x10FFFF)),
        r matches Some(c) ==> c as int == n as int,
{
    char::from_u32(n)
}

} // verus!
