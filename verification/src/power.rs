//! Powers of two.

use vstd::arithmetic::power2::{
    lemma2_to64, lemma2_to64_rest, lemma_pow2_pos, lemma_pow2_strictly_increases, lemma_pow2_unfold,
    pow2,
};
use vstd::prelude::*;

verus! {

/// `2^exponent`.
pub fn power_of_two(exponent: u32) -> (power: i64)
    requires
        exponent <= 62,
    ensures
        power == pow2(exponent as nat),
        1 <= power <= 0x4000_0000_0000_0000,
{
    let mut power: i64 = 1;
    let mut done: u32 = 0;
    proof {
        lemma_pow2_monotone(0, exponent as nat);
    }
    while done < exponent
        invariant
            done <= exponent <= 62,
            power == pow2(done as nat),
            1 <= power,
            power <= pow2(exponent as nat),
            pow2(exponent as nat) <= 0x4000_0000_0000_0000,
        decreases exponent - done,
    {
        proof {
            lemma_pow2_unfold((done + 1) as nat);
            lemma_pow2_monotone((done + 1) as nat, exponent as nat);
        }
        power = power * 2;
        done = done + 1;
    }
    power
}

/// `2^low ≤ 2^high` where `low ≤ high`, with the values of `2^0` and `2^62`.
pub proof fn lemma_pow2_monotone(low: nat, high: nat)
    requires
        low <= high,
    ensures
        1 <= pow2(low) <= pow2(high),
        high <= 62 ==> pow2(high) <= 0x4000_0000_0000_0000,
        pow2(0) == 1,
{
    lemma2_to64();
    lemma2_to64_rest();
    if low < high {
        lemma_pow2_strictly_increases(low, high);
    }
    lemma_pow2_pos(low);
    if high < 62 {
        lemma_pow2_strictly_increases(high, 62);
    }
}

} // verus!
