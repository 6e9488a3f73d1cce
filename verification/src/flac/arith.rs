//! Two's complement arithmetic on 32-bit samples, as the decoder's integer operations perform it.

use vstd::prelude::*;
use vstd::arithmetic::power2::{pow2, lemma_pow2_adds, lemma_pow2_pos, lemma2_to64, lemma2_to64_rest};
use vstd::arithmetic::div_mod::lemma_hoist_over_denominator;
use crate::io::pow2_u64;

verus! {

/// `x` wrapped into the range of an `i32`, as two's complement arithmetic does.
pub open spec fn wrap_i32(x: int) -> int {
    (x + 0x8000_0000) % 0x1_0000_0000 - 0x8000_0000
}

/// Wrapping leaves values in range alone and always lands in range.
pub proof fn lemma_wrap_i32(x: int)
    ensures
        i32::MIN <= wrap_i32(x) <= i32::MAX,
        i32::MIN <= x <= i32::MAX ==> wrap_i32(x) == x,
{
}

/// Wraps a wide intermediate value into an `i32`.
pub fn wrap_to_i32(x: i64) -> (r: i32)
    requires
        -0x4000_0000_0000_0000 <= x <= 0x4000_0000_0000_0000,
    ensures
        r == wrap_i32(x as int),
{
    // 2^62 is a multiple of 2^32, so adding it first keeps the sum non-negative without changing
    // the result.
    let y: u128 = (x as i128 + 0x4000_0000_8000_0000i128) as u128;
    let low: u128 = y % 0x1_0000_0000;
    assert(low as int == (x + 0x8000_0000) % 0x1_0000_0000) by {
        assert(y as int == (x + 0x8000_0000) + 0x4000_0000 * 0x1_0000_0000);
        vstd::arithmetic::div_mod::lemma_mod_multiples_vanish(
            0x4000_0000,
            x + 0x8000_0000,
            0x1_0000_0000,
        );
    }
    (low as i64 - 0x8000_0000) as i32
}

/// Arithmetic shift right of a wide value: division by `2^shift`, rounding down.
pub fn floor_shr(x: i64, shift: u32) -> (r: i64)
    requires
        -0x4000_0000_0000_0000 <= x <= 0x4000_0000_0000_0000,
        shift <= 32,
    ensures
        r == x as int / (pow2(shift as nat) as int),
{
    let d: u64 = pow2_u64(shift);
    proof {
        lemma2_to64();
        lemma2_to64_rest();
        lemma_pow2_pos(shift as nat);
        lemma_pow2_adds(shift as nat, (62 - shift) as nat);
        let k = pow2((62 - shift) as nat) as int;
        lemma_hoist_over_denominator(x as int, k, pow2(shift as nat));
        assert(k * pow2(shift as nat) == 0x4000_0000_0000_0000) by (nonlinear_arith)
            requires
                pow2(shift as nat) * k == 0x4000_0000_0000_0000,
        ;
        vstd::arithmetic::div_mod::lemma_div_multiples_vanish(k, pow2(shift as nat) as int);
        assert(pow2(shift as nat) * k == k * pow2(shift as nat)) by (nonlinear_arith);
    }
    let biased: i128 = x as i128 + 0x4000_0000_0000_0000i128;
    let q: i128 = biased / (d as i128);
    let k: i128 = 0x4000_0000_0000_0000i128 / (d as i128);
    (q - k) as i64
}

} // verus!
