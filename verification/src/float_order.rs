//! Comparison of fp32 values by their bit patterns.

use vstd::prelude::*;

verus! {

/// The pattern is not a number: all exponent bits set, some fraction bit set.
pub open spec fn is_nan(bits: u32) -> bool {
    bits as int % 0x8000_0000 > 0x7f80_0000
}

/// Place of a number among the fp32 values. Patterns of one sign are ordered
/// as their magnitudes are, and the two zeros share a place.
pub open spec fn rank(bits: u32) -> int {
    if bits < 0x8000_0000 {
        bits as int
    } else {
        0x8000_0000 - bits
    }
}

/// The value of `a` exceeds that of `b`; never true of a NaN.
pub open spec fn exceeds(a: u32, b: u32) -> bool {
    !is_nan(a) && !is_nan(b) && rank(a) > rank(b)
}

/// The values of `a` and `b` are equal; never true of a NaN.
pub open spec fn same_value(a: u32, b: u32) -> bool {
    !is_nan(a) && !is_nan(b) && rank(a) == rank(b)
}

/// Whether a pattern is not a number.
pub fn f32_is_nan(bits: u32) -> (nan: bool)
    ensures
        nan == is_nan(bits),
        nan == (0x7f80_0000 < bits < 0x8000_0000 || 0xff80_0000 < bits),
{
    bits % 0x8000_0000 > 0x7f80_0000
}

/// The place of a pattern among the fp32 values.
pub fn f32_rank(bits: u32) -> (place: i64)
    ensures
        place == rank(bits),
        bits < 0x8000_0000 ==> place == bits,
        0x8000_0000 <= bits ==> -place == bits - 0x8000_0000,
{
    if bits < 0x8000_0000 {
        bits as i64
    } else {
        0x8000_0000i64 - (bits as i64)
    }
}

/// Whether the value of `a` exceeds that of `b`.
pub fn f32_exceeds(a: u32, b: u32) -> (result: bool)
    ensures
        result == exceeds(a, b),
{
    !f32_is_nan(a) && !f32_is_nan(b) && f32_rank(a) > f32_rank(b)
}

/// Whether the values of `a` and `b` are equal.
pub fn f32_same_value(a: u32, b: u32) -> (result: bool)
    ensures
        result == same_value(a, b),
{
    !f32_is_nan(a) && !f32_is_nan(b) && f32_rank(a) == f32_rank(b)
}

/// Law: numbers are totally ordered, and a NaN compares with nothing.
pub proof fn law_order_is_total_but_for_nan(a: u32, b: u32, c: u32)
    ensures
        !is_nan(a) && !is_nan(b) ==> exceeds(a, b) || exceeds(b, a) || same_value(a, b),
        is_nan(a) || is_nan(b) ==> !exceeds(a, b) && !same_value(a, b),
        !(exceeds(a, b) && exceeds(b, a)),
        !(exceeds(a, b) && same_value(a, b)),
        exceeds(a, b) && exceeds(b, c) ==> exceeds(a, c),
{
}

/// Law: patterns without the sign bit are ordered as integers are, patterns with
/// it the other way round, a positive one exceeds a negative one, and the two
/// zeros are one value.
pub proof fn law_patterns_order_as_their_magnitudes(a: int, b: int)
    requires
        0 <= a <= 0x7f80_0000,
        0 <= b <= 0x7f80_0000,
    ensures
        exceeds(a as u32, b as u32) <==> b < a,
        exceeds((0x8000_0000 + a) as u32, (0x8000_0000 + b) as u32) <==> a < b,
        exceeds(a as u32, (0x8000_0000 + b) as u32) <==> 0 < a || 0 < b,
        !exceeds((0x8000_0000 + a) as u32, b as u32),
        same_value(a as u32, b as u32) <==> a == b,
        same_value((0x8000_0000 + a) as u32, (0x8000_0000 + b) as u32) <==> a == b,
        same_value(a as u32, (0x8000_0000 + b) as u32) <==> a == 0 && b == 0,
        same_value((0x8000_0000 + a) as u32, b as u32) <==> a == 0 && b == 0,
{
}

/// Law: the patterns that are no numbers are those past infinity, of either sign.
pub proof fn law_what_lies_past_infinity_is_no_number(bits: u32)
    ensures
        is_nan(bits) <==> 0x7f80_0000 < bits < 0x8000_0000 || 0xff80_0000 < bits,
{
}

} // verus!
