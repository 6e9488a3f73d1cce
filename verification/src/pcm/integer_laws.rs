//! Laws of integer PCM decoding: signed samples are two's complement integers and unsigned ones
//! offset binary, both moved to the top of a 32-bit sample.

use vstd::prelude::*;
use vstd::arithmetic::power2::{pow2, lemma_pow2_adds, lemma_pow2_pos, lemma2_to64};
use vstd::bits::lemma_u32_shl_is_mul;
use crate::pcm::{PcmCoding, pcm_sample};

verus! {

/// A 32-bit word read as a two's complement integer.
proof fn lemma_u32_as_i32(v: u32)
    ensures
        (v as i32) as int == if v < 0x8000_0000 {
            v as int
        } else {
            v - 0x1_0000_0000
        },
{
    assert((v as i32) as int == if v < 0x8000_0000 {
        v as int
    } else {
        v - 0x1_0000_0000
    }) by (bit_vector);
}

/// A coded integer `raw` of `bits` bits (1 to 32) decodes to a sample scaled by `2^(32 - bits)`:
/// as a signed sample, codes from `2^(bits - 1)` on are the negative values (two's complement);
/// as an unsigned sample, the code `2^(bits - 1)` is silence, and every code decodes to its
/// distance from it.
pub proof fn lemma_integer_samples(raw: nat, bits: nat)
    requires
        1 <= bits <= 32,
        raw < pow2(bits),
    ensures
        ({
            let shift = (32 - bits) as u32;
            let scale = pow2(shift as nat) as int;
            let half = pow2((bits - 1) as nat) as int;
            &&& pcm_sample(PcmCoding::Signed, raw, shift) == (if raw < half {
                raw as int
            } else {
                raw - 2 * half
            }) * scale
            &&& pcm_sample(PcmCoding::Unsigned, raw, shift) == (raw - half) * scale
        }),
{
    let shift = (32 - bits) as u32;
    let scale = pow2(shift as nat) as int;
    let half = pow2((bits - 1) as nat) as int;
    lemma2_to64();
    lemma_pow2_adds((bits - 1) as nat, shift as nat);
    lemma_pow2_adds(bits, shift as nat);
    lemma_pow2_adds((bits - 1) as nat, 1);
    lemma_pow2_pos(shift as nat);
    assert(half * scale == 0x8000_0000);
    assert(2 * half * scale == 0x1_0000_0000) by (nonlinear_arith)
        requires
            half * scale == 0x8000_0000,
    ;
    assert(pow2(bits) == 2 * half);
    assert(raw * scale < 0x1_0000_0000 && (raw < half <==> raw * scale < 0x8000_0000)) by (
    nonlinear_arith)
        requires
            raw < 2 * half,
            half * scale == 0x8000_0000,
            scale > 0,
            raw >= 0,
    ;
    let x = raw as u32;
    assert(x == raw);
    lemma_u32_shl_is_mul(x, shift);
    let v = x << shift;
    assert(v as int == raw * scale);
    lemma_u32_as_i32(v);
    let t = ((v as int + 0x8000_0000) % 0x1_0000_0000) as u32;
    lemma_u32_as_i32(t);
    assert((raw - half) * scale == raw * scale - 0x8000_0000) by (nonlinear_arith)
        requires
            half * scale == 0x8000_0000,
    ;
    assert((raw - 2 * half) * scale == raw * scale - 0x1_0000_0000) by (nonlinear_arith)
        requires
            2 * half * scale == 0x1_0000_0000,
    ;
}

} // verus!
