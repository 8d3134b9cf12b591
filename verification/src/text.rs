//! String operations that the library builds on.
use vstd::prelude::*;

verus! {

/// `String::push`: appends one character.
#[verifier::external_body]
pub fn push_char(s: &mut std::string::String, c: char)
    ensures
        final(s)@ == old(s)@.push(c),
{
    s.push(c);
}

/// Appends a string.
pub fn push_str(s: &mut std::string::String, x: &str)
    ensures
        final(s)@ == old(s)@ + x@,
{
    s.append(x);
}

/// The string holds the characters of `b`.
pub fn string_eq_str(a: &std::string::String, b: &str) -> (r: bool)
    ensures
        r == (a@ == b@),
{
    let bs = <std::string::String as StringExecFns>::from_str(b);
    *a == bs
}

/// The first character of `a` is `c`.
pub fn starts_with_char(a: &str, c: char) -> (r: bool)
    ensures
        r == (a@.len() > 0 && a@[0] == c),
{
    a.unicode_len() > 0 && a.get_char(0) == c
}

/// A string holding the characters of `x`.
pub fn string_of_lit(x: &str) -> (r: std::string::String)
    ensures
        r@ == x@,
{
    let mut r = std::string::String::new();
    push_str(&mut r, x);
    assert(r@ =~= x@);
    r
}

/// The two strings hold the same characters.
pub fn string_eq(a: &std::string::String, b: &std::string::String) -> (r: bool)
    ensures
        r == (a@ == b@),
{
    *a == *b
}

} // verus!
