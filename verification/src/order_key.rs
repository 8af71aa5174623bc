//! Integer keys that order as double-precision numbers do.
//!
//! The bit pattern of an IEEE 754 number is a sign bit and a magnitude, and for
//! numbers that are not NaN the order of the values is the order of these
//! sign-magnitude integers; both zeros stand at 0.

use vstd::prelude::*;

verus! {

/// The sign bit of a 64-bit pattern.
pub const SIGN_BIT: u64 = 0x8000_0000_0000_0000;

/// The integer that a bit pattern denotes in sign-magnitude form.
pub open spec fn sign_magnitude(bits: u64) -> int {
    if bits < SIGN_BIT { bits as int } else { SIGN_BIT - bits }
}

/// The order key of a bit pattern.
pub fn order_key(bits: u64) -> (key: i64)
    ensures
        key == sign_magnitude(bits),
        key > i64::MIN,
{
    if bits < SIGN_BIT {
        bits as i64
    } else {
        0 - ((bits - SIGN_BIT) as i64)
    }
}

/// A bit pattern with the given order key; for key 0 that of positive zero.
pub fn key_bits(key: i64) -> (bits: u64)
    requires
        key > i64::MIN,
    ensures
        sign_magnitude(bits) == key,
        bits < SIGN_BIT <==> key >= 0,
{
    if key >= 0 {
        key as u64
    } else {
        SIGN_BIT + ((0 - key) as u64)
    }
}

/// A key determines its bit pattern, except that both zeros share key 0.
pub proof fn law_key_determines_bits(a: u64, b: u64)
    requires
        sign_magnitude(a) == sign_magnitude(b),
    ensures
        a == b || (sign_magnitude(a) == 0 && (a == 0 || a == SIGN_BIT) && (b == 0 || b
            == SIGN_BIT)),
{
}

/// Keys order as the numbers do.  Patterns without the sign bit are the numbers from
/// zero up, which grow with the pattern; those with it are the numbers from zero
/// down, which fall as the pattern grows; and none of these lies above one of those.
pub proof fn law_key_order(a: u64, b: u64)
    ensures
        a < 0x8000_0000_0000_0000 && b < 0x8000_0000_0000_0000 ==> (sign_magnitude(a)
            < sign_magnitude(b) <==> a < b),
        a >= 0x8000_0000_0000_0000 && b >= 0x8000_0000_0000_0000 ==> (sign_magnitude(a)
            < sign_magnitude(b) <==> a > b),
        a >= 0x8000_0000_0000_0000 && b < 0x8000_0000_0000_0000 ==> sign_magnitude(a) <= 0
            <= sign_magnitude(b),
        sign_magnitude(0) == 0,
        sign_magnitude(0x8000_0000_0000_0000) == 0,
{
}

} // verus!
