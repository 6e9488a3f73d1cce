//! Laws of G.711 expansion: A-law and Mu-law samples grow with their code's segment and
//! mantissa, their first segments are evenly spaced, and the sign bit only negates.

use vstd::prelude::*;
use vstd::arithmetic::power2::pow2;
use crate::pcm::{alaw, mulaw};

verus! {

/// The magnitude of the A-law level `k` (0 to 127): segment `k / 16`, mantissa `k % 16`.
spec fn alaw_level(k: int) -> int {
    let mant = k % 16;
    let seg = k / 16;
    if seg == 0 {
        mant * 16 + 0x8
    } else if seg == 1 {
        mant * 16 + 0x108
    } else {
        (mant * 16 + 0x108) * pow2((seg - 1) as nat)
    }
}

/// The magnitude of the Mu-law level `k` (0 to 127): segment `k / 16`, mantissa `k % 16`.
spec fn mulaw_level(k: int) -> int {
    (k % 16 * 8 + 0x84) * pow2((k / 16) as nat) - 0x84
}

proof fn lemma_alaw_level_step(k: int)
    requires
        0 <= k < 127,
    ensures
        alaw_level(k) < alaw_level(k + 1),
{
    let s = k / 16;
    let m = k % 16;
    if m < 15 {
        assert((k + 1) / 16 == s && (k + 1) % 16 == m + 1);
        if s >= 2 {
            let p = pow2((s - 1) as nat);
            vstd::arithmetic::power2::lemma_pow2_pos((s - 1) as nat);
            assert((m * 16 + 0x108) * p < ((m + 1) * 16 + 0x108) * p) by (nonlinear_arith)
                requires
                    p > 0,
            ;
        }
    } else {
        assert((k + 1) / 16 == s + 1 && (k + 1) % 16 == 0);
        if s >= 1 {
            let p = pow2((s - 1) as nat);
            vstd::arithmetic::power2::lemma_pow2_pos((s - 1) as nat);
            vstd::arithmetic::power2::lemma_pow2_unfold(s as nat);
            assert(s == 1 ==> p == 1) by {
                vstd::arithmetic::power2::lemma2_to64();
            }
            assert((15 * 16 + 0x108) * p < 0x108 * (2 * p)) by (nonlinear_arith)
                requires
                    p > 0,
            ;
        }
    }
}

proof fn lemma_alaw_level_increasing(j: int, k: int)
    requires
        0 <= j < k < 128,
    ensures
        alaw_level(j) < alaw_level(k),
    decreases k - j,
{
    lemma_alaw_level_step(j);
    if j + 1 < k {
        lemma_alaw_level_increasing(j + 1, k);
    }
}

proof fn lemma_mulaw_level_step(k: int)
    requires
        0 <= k < 127,
    ensures
        mulaw_level(k) < mulaw_level(k + 1),
{
    let s = k / 16;
    let m = k % 16;
    let p = pow2(s as nat);
    vstd::arithmetic::power2::lemma_pow2_pos(s as nat);
    if m < 15 {
        assert((k + 1) / 16 == s && (k + 1) % 16 == m + 1);
        assert((m * 8 + 0x84) * p < ((m + 1) * 8 + 0x84) * p) by (nonlinear_arith)
            requires
                p > 0,
        ;
    } else {
        assert((k + 1) / 16 == s + 1 && (k + 1) % 16 == 0);
        vstd::arithmetic::power2::lemma_pow2_unfold((s + 1) as nat);
        assert((15 * 8 + 0x84) * p < 0x84 * (2 * p)) by (nonlinear_arith)
            requires
                p > 0,
        ;
    }
}

proof fn lemma_mulaw_level_increasing(j: int, k: int)
    requires
        0 <= j < k < 128,
    ensures
        mulaw_level(j) < mulaw_level(k),
    decreases k - j,
{
    lemma_mulaw_level_step(j);
    if j + 1 < k {
        lemma_mulaw_level_increasing(j + 1, k);
    }
}

/// A positive A-law code (bit 7 set once every other bit is inverted) expands to the magnitude
/// of its level, its low 7 bits.
proof fn lemma_alaw_positive(a: u8)
    requires
        (a ^ 0x55u8) >= 128,
    ensures
        alaw(a) == alaw_level((a ^ 0x55u8) as int - 128),
{
    let v = (a ^ 0x55u8) as int;
    assert(v % 16 == (v - 128) % 16 && (v / 16) % 8 == (v - 128) / 16 && 0 <= (v - 128) / 16 < 8)
        by (nonlinear_arith)
        requires
            128 <= v < 256,
    ;
}

/// A positive Mu-law code (bit 7 clear) expands to the magnitude of its level, 127 less the code.
proof fn lemma_mulaw_positive(m: u8)
    requires
        m < 128,
    ensures
        mulaw(m) == mulaw_level(127 - m),
{
    let v = 255 - m;
    assert(v % 16 == (v - 128) % 16 && (v / 16) % 8 == (v - 128) / 16) by (nonlinear_arith)
        requires
            128 <= v < 256,
    ;
}

/// A-law expansion is monotone: among positive codes (bit 7 set once every other bit is
/// inverted), a higher segment and mantissa, the low 7 bits, give a strictly larger sample.
/// Segments 0 and 1 are evenly spaced, 16 apart from 8: each segment continues the one before.
pub proof fn lemma_alaw_increasing(a: u8, b: u8)
    ensures
        (a ^ 0x55u8) >= 128 && (b ^ 0x55u8) >= 128 && (a ^ 0x55u8) < (b ^ 0x55u8) ==> alaw(a)
            < alaw(b),
        (a ^ 0x55u8) >= 128 && (a ^ 0x55u8) < 160 ==> alaw(a) == 8 + 16 * ((a ^ 0x55u8) - 128),
        (a ^ 0x55u8) >= 128 ==> 8 <= alaw(a) <= 32256,
{
    if (a ^ 0x55u8) >= 128 {
        lemma_alaw_positive(a);
        let k = (a ^ 0x55u8) as int - 128;
        if k > 0 {
            lemma_alaw_level_increasing(0, k);
        }
        if k < 127 {
            lemma_alaw_level_increasing(k, 127);
        }
        assert(alaw_level(127) == 32256) by {
            vstd::arithmetic::power2::lemma2_to64();
            assert(127int % 16 == 15 && 127int / 16 == 7);
            assert(alaw_level(127) == (15 * 16 + 0x108) * pow2(6));
        }
        if (b ^ 0x55u8) >= 128 && (a ^ 0x55u8) < (b ^ 0x55u8) {
            lemma_alaw_positive(b);
            lemma_alaw_level_increasing(k, (b ^ 0x55u8) as int - 128);
        }
    }
}

/// Flipping the sign bit of an A-law code negates the sample.
pub proof fn lemma_alaw_sign(a: u8)
    requires
        a < 128,
    ensures
        alaw((a + 128) as u8) == -alaw(a),
{
    let b = (a + 128) as u8;
    assert((b ^ 0x55u8) as int == (a ^ 0x55u8) as int + 128) by (bit_vector)
        requires
            a < 128,
            b == (a + 128) as u8,
    ;
    let v = (a ^ 0x55u8) as int;
    assert((v + 128) % 16 == v % 16 && ((v + 128) / 16) % 8 == (v / 16) % 8) by (nonlinear_arith)
        requires
            0 <= v < 128,
    ;
}

/// Mu-law expansion is monotone: among positive codes (bit 7 clear), a smaller code gives a
/// strictly larger sample. Segment 0 is evenly spaced, 8 apart from 0.
pub proof fn lemma_mulaw_decreasing(a: u8, b: u8)
    ensures
        a < b < 128 ==> mulaw(b) < mulaw(a),
        112 <= a < 128 ==> mulaw(a) == 8 * (127 - a),
        a < 128 ==> 0 <= mulaw(a) <= 32124,
{
    if a < 128 {
        lemma_mulaw_positive(a);
        let k = 127 - a;
        if k > 0 {
            lemma_mulaw_level_increasing(0, k);
        }
        if k < 127 {
            lemma_mulaw_level_increasing(k, 127);
        }
        assert(mulaw_level(127) == 32124 && mulaw_level(0) == 0) by {
            vstd::arithmetic::power2::lemma2_to64();
            assert(127int % 16 == 15 && 127int / 16 == 7 && 0int % 16 == 0 && 0int / 16 == 0);
            assert(mulaw_level(127) == (15 * 8 + 0x84) * pow2(7) - 0x84);
            assert(mulaw_level(0) == 0x84 * pow2(0) - 0x84);
        }
        if k < 16 {
            vstd::arithmetic::power2::lemma2_to64();
            assert(k % 16 == k && k / 16 == 0);
            assert(mulaw_level(k) == (k * 8 + 0x84) * pow2(0) - 0x84);
            let p0 = pow2(0);
            assert((k * 8 + 0x84) * p0 - 0x84 == 8 * k) by (nonlinear_arith)
                requires
                    p0 == 1,
            ;
        }
        if a < b < 128 {
            lemma_mulaw_positive(b);
            lemma_mulaw_level_increasing(127 - b, k);
        }
    }
}

/// Flipping the sign bit of a Mu-law code negates the sample.
pub proof fn lemma_mulaw_sign(m: u8)
    requires
        m < 128,
    ensures
        mulaw((m + 128) as u8) == -mulaw(m),
{
    let v = 255 - m as int;
    assert(v % 16 == (v - 128) % 16 && (v / 16) % 8 == ((v - 128) / 16) % 8) by (nonlinear_arith)
        requires
            128 <= v < 256,
    ;
}

} // verus!
