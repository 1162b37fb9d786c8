//! Real numbers as ranks.
//!
//! A binary64 value that is not a NaN is a sign and a 63-bit magnitude, and
//! among values of one sign the larger magnitude is the value farther from
//! zero. Its rank is the magnitude, negated where the sign bit is set. Ranks
//! therefore order as the values do, zero has rank 0 whatever its sign, and a
//! value is positive exactly when its rank is. The two infinities have the
//! ranks `RANK_LIMIT` and `-RANK_LIMIT`.

use vstd::prelude::*;

verus! {

/// The rank of positive infinity: no rank has a larger magnitude.
pub const RANK_LIMIT: i64 = 0x7FF0_0000_0000_0000;

/// The rank of the greatest number that is not an infinity.
pub const FINITE_LIMIT: i64 = 0x7FEF_FFFF_FFFF_FFFF;

/// The step from the rank of a number to the rank of its double, for numbers
/// that are neither close to zero nor close to infinity.
pub const DOUBLING: i64 = 0x0010_0000_0000_0000;

/// The sign bit of a binary64 bit pattern.
pub const SIGN_BIT: u64 = 0x8000_0000_0000_0000;

/// Whether `r` is the rank of some value.
pub open spec fn is_rank(r: int) -> bool {
    -RANK_LIMIT <= r <= RANK_LIMIT
}

/// The bit pattern without its sign bit.
pub open spec fn magnitude(bits: u64) -> int {
    if bits >= SIGN_BIT {
        bits - SIGN_BIT
    } else {
        bits as int
    }
}

/// Whether the bit pattern is one of the NaNs.
pub open spec fn is_nan(bits: u64) -> bool {
    magnitude(bits) > RANK_LIMIT
}

/// The rank of a bit pattern.
pub open spec fn rank(bits: u64) -> int {
    if bits >= SIGN_BIT {
        -magnitude(bits)
    } else {
        magnitude(bits)
    }
}

/// The bit pattern that a rank stands for; of rank 0, the positive zero.
pub open spec fn pattern(r: int) -> int {
    if r >= 0 {
        r
    } else {
        SIGN_BIT - r
    }
}

/// The rank of the value with the given bit pattern, or `None` for a NaN.
pub fn rank_of_bits(bits: u64) -> (r: Option<i64>)
    ensures
        is_nan(bits) <==> r is None,
        r matches Some(v) ==> v == rank(bits) && is_rank(v as int),
{
    if bits >= SIGN_BIT {
        let m: u64 = bits - SIGN_BIT;
        if m > RANK_LIMIT as u64 {
            None
        } else {
            Some(-(m as i64))
        }
    } else if bits > RANK_LIMIT as u64 {
        None
    } else {
        Some(bits as i64)
    }
}

/// The bit pattern of the value with the given rank, or `None` where no value
/// has that rank.
pub fn bits_of_rank(r: i64) -> (bits: Option<u64>)
    ensures
        is_rank(r as int) <==> bits is Some,
        bits matches Some(b) ==> b == pattern(r as int) && !is_nan(b) && rank(b) == r,
{
    if r > RANK_LIMIT || r < -RANK_LIMIT {
        None
    } else if r >= 0 {
        Some(r as u64)
    } else {
        Some(SIGN_BIT + ((-r) as u64))
    }
}

/// A rank is recovered from the bit pattern it stands for.
pub proof fn lemma_rank_round_trip(r: i64)
    requires
        is_rank(r as int),
    ensures
        0 <= pattern(r as int) <= u64::MAX,
        !is_nan(pattern(r as int) as u64),
        rank(pattern(r as int) as u64) == r,
{
}

/// A bit pattern other than a NaN or the negative zero is recovered from its
/// rank; the negative zero comes back as the positive zero.
pub proof fn lemma_bits_round_trip(bits: u64)
    requires
        !is_nan(bits),
    ensures
        is_rank(rank(bits)),
        bits != SIGN_BIT ==> pattern(rank(bits)) == bits,
        bits == SIGN_BIT ==> pattern(rank(bits)) == 0,
{
}

/// Ranks order by sign first and by magnitude within a sign: a pattern with
/// the sign bit set never ranks above one without, among patterns without it
/// the larger magnitude ranks higher, and among patterns with it the larger
/// magnitude ranks lower.
pub proof fn lemma_rank_order(a: u64, b: u64)
    ensures
        a >= SIGN_BIT && b < SIGN_BIT ==> rank(a) <= rank(b),
        a < SIGN_BIT && b < SIGN_BIT ==> (rank(a) < rank(b) <==> magnitude(a) < magnitude(b)),
        a >= SIGN_BIT && b >= SIGN_BIT ==> (rank(a) < rank(b) <==> magnitude(a) > magnitude(b)),
        rank(a) == rank(b) <==> magnitude(a) == magnitude(b) && (magnitude(a) == 0 || (a >= SIGN_BIT
            <==> b >= SIGN_BIT)),
{
}

} // verus!
