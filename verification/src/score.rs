//! Scores as the bit patterns of IEEE-754 doubles, and the integer keys by
//! which such scores are ordered.

use vstd::prelude::*;

verus! {

/// The sign bit of a double.
pub const SIGN_BIT: u64 = 0x8000_0000_0000_0000;

/// The exponent bits of a double.
pub const EXPONENT_MASK: u64 = 0x7ff0_0000_0000_0000;

/// The fraction bits of a double.
pub const FRACTION_MASK: u64 = 0x000f_ffff_ffff_ffff;

/// The pattern is that of a value which compares with no other: all exponent
/// bits set and a fraction that is not zero.
pub open spec fn is_incomparable(bits: u64) -> bool {
    bits & EXPONENT_MASK == EXPONENT_MASK && bits & FRACTION_MASK != 0
}

/// The key of a comparable score: keys ascend as the scores do, and the two
/// zeros share one key.
pub open spec fn spec_score_key(bits: u64) -> u64 {
    if bits & SIGN_BIT == 0 {
        bits | SIGN_BIT
    } else if bits == SIGN_BIT {
        SIGN_BIT
    } else {
        !bits
    }
}

/// The order key of a score given by its bit pattern, or `None` where the
/// score cannot be compared.
pub fn score_key(bits: u64) -> (r: Option<u64>)
    ensures
        r == if is_incomparable(bits) {
            None
        } else {
            Some(spec_score_key(bits))
        },
{
    if bits & EXPONENT_MASK == EXPONENT_MASK && bits & FRACTION_MASK != 0 {
        None
    } else if bits & SIGN_BIT == 0 {
        Some(bits | SIGN_BIT)
    } else if bits == SIGN_BIT {
        Some(SIGN_BIT)
    } else {
        Some(!bits)
    }
}

/// Keys order the patterns as the doubles are ordered: among patterns
/// without the sign bit the greater pattern has the greater key, among those
/// with it the lesser pattern has the greater key, a pattern with the sign bit
/// never has a greater key than one without, and only the two zeros share a
/// key across the sign.
pub proof fn lemma_score_key_order(a: u64, b: u64)
    ensures
        a & SIGN_BIT == 0 && b & SIGN_BIT == 0 ==> (spec_score_key(a) < spec_score_key(b) <==> a
            < b),
        a & SIGN_BIT != 0 && b & SIGN_BIT != 0 ==> (spec_score_key(a) < spec_score_key(b) <==> a
            > b),
        a & SIGN_BIT != 0 && b & SIGN_BIT == 0 ==> spec_score_key(a) <= spec_score_key(b),
        a & SIGN_BIT != 0 && b & SIGN_BIT == 0 ==> (spec_score_key(a) == spec_score_key(b) <==> a
            == SIGN_BIT && b == 0),
        a & SIGN_BIT == b & SIGN_BIT ==> (spec_score_key(a) == spec_score_key(b) <==> a == b),
{
    assert(a & 0x8000_0000_0000_0000u64 == 0 && b & 0x8000_0000_0000_0000u64 == 0 ==> ((if a & 0x8000_0000_0000_0000u64 == 0 { a | 0x8000_0000_0000_0000u64 } else if a == 0x8000_0000_0000_0000u64 { 0x8000_0000_0000_0000u64 } else { !a }) < (if b & 0x8000_0000_0000_0000u64 == 0 { b | 0x8000_0000_0000_0000u64 } else if b == 0x8000_0000_0000_0000u64 { 0x8000_0000_0000_0000u64 } else { !b }) <==> a < b)) by (bit_vector);
    assert(a & 0x8000_0000_0000_0000u64 != 0 && b & 0x8000_0000_0000_0000u64 != 0 ==> ((if a & 0x8000_0000_0000_0000u64 == 0 { a | 0x8000_0000_0000_0000u64 } else if a == 0x8000_0000_0000_0000u64 { 0x8000_0000_0000_0000u64 } else { !a }) < (if b & 0x8000_0000_0000_0000u64 == 0 { b | 0x8000_0000_0000_0000u64 } else if b == 0x8000_0000_0000_0000u64 { 0x8000_0000_0000_0000u64 } else { !b }) <==> a > b)) by (bit_vector);
    assert(a & 0x8000_0000_0000_0000u64 != 0 && b & 0x8000_0000_0000_0000u64 == 0 ==> (if a & 0x8000_0000_0000_0000u64 == 0 { a | 0x8000_0000_0000_0000u64 } else if a == 0x8000_0000_0000_0000u64 { 0x8000_0000_0000_0000u64 } else { !a }) <= (if b & 0x8000_0000_0000_0000u64 == 0 { b | 0x8000_0000_0000_0000u64 } else if b == 0x8000_0000_0000_0000u64 { 0x8000_0000_0000_0000u64 } else { !b })) by (bit_vector);
    assert(a & 0x8000_0000_0000_0000u64 != 0 && b & 0x8000_0000_0000_0000u64 == 0 ==> ((if a & 0x8000_0000_0000_0000u64 == 0 { a | 0x8000_0000_0000_0000u64 } else if a == 0x8000_0000_0000_0000u64 { 0x8000_0000_0000_0000u64 } else { !a }) == (if b & 0x8000_0000_0000_0000u64 == 0 { b | 0x8000_0000_0000_0000u64 } else if b == 0x8000_0000_0000_0000u64 { 0x8000_0000_0000_0000u64 } else { !b }) <==> a == 0x8000_0000_0000_0000u64 && b == 0)) by (bit_vector);
    assert(a & 0x8000_0000_0000_0000u64 == b & 0x8000_0000_0000_0000u64 ==> ((if a & 0x8000_0000_0000_0000u64 == 0 { a | 0x8000_0000_0000_0000u64 } else if a == 0x8000_0000_0000_0000u64 { 0x8000_0000_0000_0000u64 } else { !a }) == (if b & 0x8000_0000_0000_0000u64 == 0 { b | 0x8000_0000_0000_0000u64 } else if b == 0x8000_0000_0000_0000u64 { 0x8000_0000_0000_0000u64 } else { !b }) <==> a == b)) by (bit_vector);
}

} // verus!
