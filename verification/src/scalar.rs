//! Scalars as ranks.
//!
//! Coordinates, ray parameters and hit distances are only ever compared inside
//! this crate, never added or multiplied. They are therefore held as signed
//! 64-bit ranks. The rank of a binary64 bit pattern is its sign-and-magnitude
//! reading: the low 63 bits as a magnitude, negated when the top bit is set.
//! Patterns that encode numbers are ordered by rank exactly as the numbers are
//! ordered, both zeros share rank 0, and the two infinities are the extreme
//! ranks. Patterns above the infinity magnitude encode no number and have no
//! rank.

use vstd::prelude::*;

verus! {

/// Rank of positive infinity: the largest rank there is.
pub const INFINITY: i64 = 0x7ff0_0000_0000_0000;

/// Rank of negative infinity: the smallest rank there is.
pub const NEG_INFINITY: i64 = -0x7ff0_0000_0000_0000;

/// The top bit of a pattern, which carries the sign.
pub const SIGN_BIT: u64 = 0x8000_0000_0000_0000;

/// Whether `rank` is the rank of some bit pattern.
pub open spec fn is_rank(rank: int) -> bool {
    NEG_INFINITY <= rank <= INFINITY
}

/// The low 63 bits of a pattern.
pub open spec fn magnitude(bits: u64) -> int {
    if bits >= SIGN_BIT {
        bits - SIGN_BIT
    } else {
        bits as int
    }
}

/// Whether a pattern encodes a number (an infinity included).
pub open spec fn is_number(bits: u64) -> bool {
    magnitude(bits) <= INFINITY
}

/// The rank of a pattern that encodes a number.
pub open spec fn rank_of(bits: u64) -> int {
    if bits >= SIGN_BIT {
        -magnitude(bits)
    } else {
        magnitude(bits)
    }
}

/// The pattern that a rank is read back as; rank 0 reads back as positive zero.
pub open spec fn bits_of(rank: int) -> int {
    if rank >= 0 {
        rank
    } else {
        SIGN_BIT - rank
    }
}

/// Ranks a bit pattern, or reports that it encodes no number.
pub fn rank_of_bits(bits: u64) -> (r: Option<i64>)
    ensures
        r.is_some() <==> is_number(bits),
        r.is_some() ==> r.unwrap() == rank_of(bits) && is_rank(r.unwrap() as int),
{
    let negative = bits >= SIGN_BIT;
    let mag: u64 = if negative {
        bits - SIGN_BIT
    } else {
        bits
    };
    if mag > 0x7ff0_0000_0000_0000 {
        None
    } else if negative {
        Some(-(mag as i64))
    } else {
        Some(mag as i64)
    }
}

/// Reads a rank back as a bit pattern.
pub fn bits_of_rank(rank: i64) -> (bits: u64)
    requires
        is_rank(rank as int),
    ensures
        bits == bits_of(rank as int),
        is_number(bits),
        rank_of(bits) == rank,
{
    if rank >= 0 {
        rank as u64
    } else {
        SIGN_BIT + ((-rank) as u64)
    }
}

/// Ranking a pattern and reading the rank back gives the pattern again, except
/// that negative zero comes back as positive zero.
pub proof fn lemma_rank_round_trip(bits: u64)
    requires
        is_number(bits),
    ensures
        is_rank(rank_of(bits)),
        bits != SIGN_BIT ==> bits_of(rank_of(bits)) == bits,
        bits == SIGN_BIT ==> bits_of(rank_of(bits)) == 0,
{
}

/// Among patterns with the sign bit clear, a larger pattern has a larger rank;
/// among patterns with it set, a larger pattern has a smaller rank; and no
/// pattern with the sign bit set outranks one with it clear.
pub proof fn lemma_rank_order(a: u64, b: u64)
    requires
        is_number(a),
        is_number(b),
    ensures
        a < SIGN_BIT && b < SIGN_BIT ==> (rank_of(a) < rank_of(b) <==> a < b),
        a >= SIGN_BIT && b >= SIGN_BIT ==> (rank_of(a) < rank_of(b) <==> a > b),
        a >= SIGN_BIT && b < SIGN_BIT ==> rank_of(a) <= rank_of(b),
{
}

} // verus!
