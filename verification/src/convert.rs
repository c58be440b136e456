//! Conversions between `String`/`&str` and `Vec<char>`.  The verified text
//! algorithms of this crate work on character vectors; these two bridges
//! only change the container, never the character sequence.

use vstd::prelude::*;

verus! {

/// Relies on str::chars and Iterator::collect from std: gathers the
/// characters of the string, in order, into a vector.
#[verifier::external_body]
pub fn chars_of(s: &str) -> (r: Vec<char>)
    ensures
        r@ == s@,
{
    s.chars().collect()
}

/// Relies on Iterator::collect for String from std: builds the string that
/// holds exactly these characters, in order.
#[verifier::external_body]
pub fn string_from_chars(v: &Vec<char>) -> (r: String)
    ensures
        r@ == v@,
{
    v.iter().collect()
}

} // verus!
