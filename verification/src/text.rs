//! Small operations on text that the standard library performs.

use vstd::prelude::*;
use itertools::Itertools;

verus! {

/// The text `head` followed by the text `tail`.
///
/// Trusted: calls `concat` of the standard library on the two slices, which
/// joins them in order; the claim is that the characters of the result are
/// those of `head` followed by those of `tail`.
#[verifier::external_body]
pub(crate) fn concat(head: &str, tail: &str) -> (r: String)
    ensures
        r@ == head@ + tail@,
{
    [head, tail].concat()
}

/// The text that the given bytes encode in UTF-8, if they encode one.
///
/// Trusted: calls `String::from_utf8`, which succeeds exactly on well-formed
/// UTF-8 and then yields the string whose bytes are the given ones.
#[verifier::external_body]
pub(crate) fn text_from_utf8(bytes: Vec<u8>) -> (r: Option<String>)
    ensures
        r is Some <==> vstd::utf8::valid_utf8(bytes@),
        r is Some ==> vstd::utf8::encode_utf8(r->Some_0@) == bytes@,
{
    String::from_utf8(bytes).ok()
}

/// The character of the digit `d`.
pub open spec fn digit(d: nat) -> char {
    (48 + d) as u8 as char
}

/// The decimal digits of `n`, without leading zeros.
pub open spec fn decimal(n: nat) -> Seq<char>
    decreases n,
{
    if n < 10 {
        seq![digit(n)]
    } else {
        decimal(n / 10).push(digit(n % 10))
    }
}

/// The numbers in decimal, separated by a comma and a space.
pub open spec fn joined(numbers: Seq<u16>) -> Seq<char>
    decreases numbers.len(),
{
    if numbers.len() == 0 {
        Seq::empty()
    } else if numbers.len() == 1 {
        decimal(numbers[0] as nat)
    } else {
        joined(numbers.drop_last()) + seq![',', ' '] + decimal(numbers.last() as nat)
    }
}

/// The number in decimal.
///
/// Trusted: calls `to_string` of the standard library on an unsigned
/// integer, which writes its decimal digits without sign or leading zeros.
#[verifier::external_body]
pub(crate) fn decimal_text(n: usize) -> (r: String)
    ensures
        r@ == decimal(n as nat),
{
    n.to_string()
}

/// The numbers in decimal, separated by a comma and a space.
///
/// Trusted: calls `itertools::Itertools::join` with the separator `", "`,
/// which writes each item as its `Display` does, here in decimal, and puts
/// the separator between each two.
#[verifier::external_body]
pub(crate) fn join_numbers(numbers: &[u16]) -> (r: String)
    ensures
        r@ == joined(numbers@),
{
    numbers.iter().join(", ")
}

} // verus!
