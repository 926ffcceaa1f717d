//! Comparisons of IEEE 754 numbers by their bit patterns.
//!
//! The engine never computes with floating-point numbers; it only asks where a
//! sampling parameter lies. Parameters are kept as bit patterns.
use vstd::prelude::*;

verus! {

/// 1.0 in double precision.
pub const DOUBLE_ONE: u64 = 0x3ff0_0000_0000_0000;

/// Positive infinity in double precision; larger patterns without the sign are not numbers.
pub const DOUBLE_INFINITY: u64 = 0x7ff0_0000_0000_0000;

/// The sign bit of a double.
pub const DOUBLE_SIGN: u64 = 0x8000_0000_0000_0000;

/// 1.0 in single precision.
pub const SINGLE_ONE: u32 = 0x3f80_0000;

/// The double with these bits is at most zero. Not-a-number is not.
pub open spec fn at_most_zero(bits: u64) -> bool {
    bits == 0 || DOUBLE_SIGN <= bits <= DOUBLE_SIGN + DOUBLE_INFINITY
}

/// The double with these bits is at least one. Not-a-number is not.
pub open spec fn at_least_one(bits: u64) -> bool {
    DOUBLE_ONE <= bits <= DOUBLE_INFINITY
}

/// The double with these bits lies strictly between zero and one.
pub open spec fn inside_unit(bits: u64) -> bool {
    0 < bits < DOUBLE_ONE
}

pub fn is_at_most_zero(bits: u64) -> (result: bool)
    ensures
        result == at_most_zero(bits),
{
    bits == 0 || (DOUBLE_SIGN <= bits && bits <= DOUBLE_SIGN + DOUBLE_INFINITY)
}

pub fn is_at_least_one(bits: u64) -> (result: bool)
    ensures
        result == at_least_one(bits),
{
    DOUBLE_ONE <= bits && bits <= DOUBLE_INFINITY
}

pub fn is_inside_unit(bits: u64) -> (result: bool)
    ensures
        result == inside_unit(bits),
{
    0 < bits && bits < DOUBLE_ONE
}

/// Every number is at most zero, strictly inside the unit interval or at least one, and in only
/// one of the three; what is in none of them is not a number.
pub proof fn law_three_ranges(bits: u64)
    ensures
        !(at_most_zero(bits) && inside_unit(bits)),
        !(at_most_zero(bits) && at_least_one(bits)),
        !(inside_unit(bits) && at_least_one(bits)),
        at_most_zero(bits) || inside_unit(bits) || at_least_one(bits) <==> !(DOUBLE_INFINITY < bits
            < DOUBLE_SIGN || DOUBLE_SIGN + DOUBLE_INFINITY < bits),
{
}

/// Of the numbers without a sign only zero is at most zero, and with a sign all are. The larger of
/// two numbers without a sign is in no lower range.
pub proof fn law_sign_and_size_decide(bits: u64, larger: u64)
    requires
        bits <= larger <= DOUBLE_INFINITY,
    ensures
        at_most_zero(bits) <==> bits == 0,
        at_most_zero((bits + DOUBLE_SIGN) as u64),
        !inside_unit((bits + DOUBLE_SIGN) as u64) && !at_least_one((bits + DOUBLE_SIGN) as u64),
        at_least_one(bits) ==> at_least_one(larger),
        inside_unit(bits) ==> inside_unit(larger) || at_least_one(larger),
        at_least_one(DOUBLE_ONE) && !inside_unit(DOUBLE_ONE),
{
}

} // verus!
