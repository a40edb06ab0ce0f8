//! Fixed-point scalars: a length `n` stands for the real number `n / ONE`.
use vstd::prelude::*;

verus! {

/// The fixed-point representation of the real number one.
pub const ONE: i64 = 1_073_741_824;

/// The fixed-point representation of minus one.
pub const MINUS_ONE: i64 = -1_073_741_824;

/// Half of [`ONE`], the rounding increment.
pub const HALF: i64 = 536_870_912;

/// The widest product sum that [`scale_down`] accepts, in absolute value.
pub const WIDE_LIMIT: i128 = 0x4000_0000_0000_0000_0000_0000_0000_0000;

/// `n / ONE` rounded to the nearest integer, halves rounded up.
pub open spec fn scaled(n: int) -> int {
    (n + HALF) / (ONE as int)
}

/// `n / ONE` rounded down.
pub open spec fn floored(n: int) -> int {
    n / (ONE as int)
}

/// The distance between a scaled value and the exact quotient is at most half a unit.
pub proof fn lemma_scaled_error(n: int)
    ensures
        -HALF < scaled(n) * ONE - n <= HALF,
{
}

/// Scaling an exact multiple of [`ONE`] loses nothing.
pub proof fn lemma_scaled_exact(k: int)
    ensures
        scaled(k * ONE) == k,
{
}

/// Rounds a double-width product sum back to the fixed-point scale.
pub fn scale_down(n: i128) -> (r: i128)
    requires
        -WIDE_LIMIT <= n <= WIDE_LIMIT,
    ensures
        r == scaled(n as int),
{
    let m: i128 = n + (HALF as i128);
    floor_one(m)
}

/// Divides by [`ONE`], rounding toward negative infinity.
pub fn floor_one(m: i128) -> (r: i128)
    requires
        -WIDE_LIMIT - HALF <= m <= WIDE_LIMIT + HALF,
    ensures
        r == floored(m as int),
{
    if m >= 0 {
        m / (ONE as i128)
    } else {
        let up: i128 = (-m) + ((ONE - 1) as i128);
        -(up / (ONE as i128))
    }
}

} // verus!
