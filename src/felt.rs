//! Field elements as plain values.

use vstd::prelude::*;

verus! {

/// A Starknet field element (transaction hash, contract address), held as
/// its upper and lower 128 bits in big-endian order.
#[derive(PartialEq, Eq, Structural, Clone, Copy, Debug, Hash)]
pub struct Felt {
    pub high: u128,
    pub low: u128,
}

impl Felt {
    /// Builds a field element from its two 128-bit halves.
    pub fn new(high: u128, low: u128) -> (r: Felt)
        ensures
            r.high == high,
            r.low == low,
    {
        Felt { high, low }
    }

    /// A field element small enough to fit in the lower half.
    pub fn from_u128(v: u128) -> (r: Felt)
        ensures
            r.high == 0,
            r.low == v,
    {
        Felt { high: 0, low: v }
    }
}

/// Whether `h` occurs in `hs`.
pub fn contains_felt(hs: &Vec<Felt>, h: Felt) -> (r: bool)
    ensures
        r == hs@.contains(h),
{
    let mut i: usize = 0;
    while i < hs.len()
        invariant
            i <= hs@.len(),
            forall|j: int| 0 <= j < i ==> hs@[j] != h,
        decreases hs@.len() - i,
    {
        if hs[i] == h {
            return true;
        }
        i = i + 1;
    }
    false
}

} // verus!
