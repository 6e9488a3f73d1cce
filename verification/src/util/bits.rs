//! Bit manipulation helpers: sign extension of narrow two's complement values and byte masks.

use vstd::prelude::*;
use vstd::arithmetic::power2::{pow2, lemma2_to64, lemma2_to64_rest, lemma_pow2_pos};
use vstd::bits::{lemma_u64_shl_is_mul, lemma_u64_low_bits_mask_is_mod, low_bits_mask};

verus! {

/// The value of the low `width` bits of `value`, read as a `width`-bit two's complement integer.
pub open spec fn sign_extend(value: int, width: nat) -> int {
    let low = value % pow2(width) as int;
    if width > 0 && low >= pow2((width - 1) as nat) {
        low - pow2(width)
    } else {
        low
    }
}

/// `1 << k` computed in 64 bits is `2^k`.
proof fn lemma_shl_one_u64(k: u64)
    requires
        k < 64,
    ensures
        (1u64 << k) as int == pow2(k as nat),
{
    lemma2_to64();
    lemma2_to64_rest();
    lemma_u64_shl_is_mul(1u64, k);
}

/// Masking with `(1 << k) - 1` keeps the value modulo `2^k`.
proof fn lemma_mask_u64(x: u64, k: u64)
    requires
        k < 64,
    ensures
        (x & (((1u64 << k) - 1) as u64)) as int == x as int % (pow2(k as nat) as int),
{
    lemma_shl_one_u64(k);
    lemma_pow2_pos(k as nat);
    assert(((1u64 << k) - 1) as u64 == low_bits_mask(k as nat) as u64);
    lemma_u64_low_bits_mask_is_mod(x, k as nat);
}

/// Sign extends an arbitrary, 8-bit or less, signed two's complement integer stored within an u8
/// to a full width i8.
pub fn sign_extend_leq8_to_i8(value: u8, width: u32) -> (r: i8)
    requires
        1 <= width <= 8,
    ensures
        r == sign_extend(value as int, width as nat),
{
    // Shift the value to the left-hand side of the integer, then shift it back arithmetically to
    // extend the sign bit.
    let shift = 8 - width;
    let r = ((value << shift) as i8) >> shift;
    proof {
        let w = width as u64;
        let big = 1u64 << w;
        let half = 1u64 << ((w - 1) as u64);
        let low = (value as u64) & ((big - 1) as u64);
        assert(r as int == if low >= half { low as int - big as int } else { low as int })
            by (bit_vector)
            requires
                1 <= width <= 8,
                w == width as u64,
                shift == 8 - width,
                big == 1u64 << w,
                half == 1u64 << ((w - 1) as u64),
                low == (value as u64) & ((big - 1) as u64),
                r == ((value << shift) as i8) >> shift;
        lemma_shl_one_u64(w);
        lemma_shl_one_u64((w - 1) as u64);
        lemma_mask_u64(value as u64, w);
    }
    r
}

/// Sign extends an arbitrary, 16-bit or less, signed two's complement integer stored within an u16
/// to a full width i16.
pub fn sign_extend_leq16_to_i16(value: u16, width: u32) -> (r: i16)
    requires
        1 <= width <= 16,
    ensures
        r == sign_extend(value as int, width as nat),
{
    let shift = 16 - width;
    let r = ((value << shift) as i16) >> shift;
    proof {
        let w = width as u64;
        let big = 1u64 << w;
        let half = 1u64 << ((w - 1) as u64);
        let low = (value as u64) & ((big - 1) as u64);
        assert(r as int == if low >= half { low as int - big as int } else { low as int })
            by (bit_vector)
            requires
                1 <= width <= 16,
                w == width as u64,
                shift == 16 - width,
                big == 1u64 << w,
                half == 1u64 << ((w - 1) as u64),
                low == (value as u64) & ((big - 1) as u64),
                r == ((value << shift) as i16) >> shift;
        lemma_shl_one_u64(w);
        lemma_shl_one_u64((w - 1) as u64);
        lemma_mask_u64(value as u64, w);
    }
    r
}

/// Sign extends an arbitrary, 32-bit or less, signed two's complement integer stored within an u32
/// to a full width i32.
pub fn sign_extend_leq32_to_i32(value: u32, width: u32) -> (r: i32)
    requires
        1 <= width <= 32,
    ensures
        r == sign_extend(value as int, width as nat),
{
    let shift = 32 - width;
    let r = ((value << shift) as i32) >> shift;
    proof {
        let w = width as u64;
        let big = 1u64 << w;
        let half = 1u64 << ((w - 1) as u64);
        let low = (value as u64) & ((big - 1) as u64);
        assert(r as int == if low >= half { low as int - big as int } else { low as int })
            by (bit_vector)
            requires
                1 <= width <= 32,
                w == width as u64,
                shift == 32 - width,
                big == 1u64 << w,
                half == 1u64 << ((w - 1) as u64),
                low == (value as u64) & ((big - 1) as u64),
                r == ((value << shift) as i32) >> shift;
        lemma_shl_one_u64(w);
        lemma_shl_one_u64((w - 1) as u64);
        lemma_mask_u64(value as u64, w);
    }
    r
}

/// Sign extends an arbitrary, 64-bit or less, signed two's complement integer stored within an u64
/// to a full width i64.
pub fn sign_extend_leq64_to_i64(value: u64, width: u32) -> (r: i64)
    requires
        1 <= width <= 64,
    ensures
        r == sign_extend(value as int, width as nat),
{
    let shift = 64 - width;
    let r = ((value << shift) as i64) >> shift;
    proof {
        lemma2_to64();
        lemma2_to64_rest();
        if width == 64 {
            assert(r as int == if value >= 0x8000_0000_0000_0000u64 {
                value as int - 0x1_0000_0000_0000_0000int
            } else {
                value as int
            }) by (bit_vector)
                requires
                    shift == 0,
                    r == ((value << shift) as i64) >> shift;
        } else {
            let w = width as u64;
            let big = 1u64 << w;
            let half = 1u64 << ((w - 1) as u64);
            let low = value & ((big - 1) as u64);
            assert(r as int == if low >= half { low as int - big as int } else { low as int })
                by (bit_vector)
                requires
                    1 <= width < 64,
                    w == width as u64,
                    shift == 64 - width,
                    big == 1u64 << w,
                    half == 1u64 << ((w - 1) as u64),
                    low == value & ((big - 1) as u64),
                    r == ((value << shift) as i64) >> shift;
            lemma_shl_one_u64(w);
            lemma_shl_one_u64((w - 1) as u64);
            lemma_mask_u64(value, w);
        }
    }
    r
}

/// Masks the bit at the specified bit index.
pub fn mask_at(idx: u32) -> (r: u8)
    requires
        idx <= 7,
    ensures
        r == pow2(idx as nat),
{
    proof {
        lemma_u8_shl(idx);
    }
    1u8 << idx
}

/// Masks all bits with an index greater than or equal to idx.
pub fn mask_upper_eq(idx: u32) -> (r: u8)
    requires
        idx <= 7,
    ensures
        r == 256 - pow2(idx as nat),
{
    proof {
        lemma_u8_shl(idx);
        assert((!(((1u8 << idx) - 1) as u8)) as int == 256 - (1u8 << idx)) by (bit_vector)
            requires idx <= 7;
    }
    !(((1u8 << idx) - 1) as u8)
}

/// Masks all bits with an index greater than idx.
pub fn mask_upper(idx: u32) -> (r: u8)
    requires
        idx <= 7,
    ensures
        r == 256 - pow2(idx as nat + 1),
{
    proof {
        lemma_u8_shl(idx);
        lemma2_to64();
        assert((!(((1u8 << idx) - 1) as u8) ^ (1u8 << idx)) as int == 256 - 2 * (1u8 << idx))
            by (bit_vector)
            requires idx <= 7;
    }
    !(((1u8 << idx) - 1) as u8) ^ (1u8 << idx)
}

/// Masks all bits with an index less than or equal to idx.
pub fn mask_lower_eq(idx: u32) -> (r: u8)
    requires
        idx <= 7,
    ensures
        r == pow2(idx as nat + 1) - 1,
{
    proof {
        lemma_u8_shl(idx);
        lemma2_to64();
        assert(((((1u8 << idx) - 1) as u8) ^ (1u8 << idx)) as int == 2 * (1u8 << idx) - 1)
            by (bit_vector)
            requires idx <= 7;
    }
    (((1u8 << idx) - 1) as u8) ^ (1u8 << idx)
}

/// Masks all bits with an index less than idx.
pub fn mask_lower(idx: u32) -> (r: u8)
    requires
        idx <= 7,
    ensures
        r == pow2(idx as nat) - 1,
{
    proof {
        lemma_u8_shl(idx);
    }
    ((1u8 << idx) - 1) as u8
}

/// Masks out all bits in positions less than upper, but greater than or equal to lower
/// (upper < bit <= lower).
pub fn mask_range(upper: u32, lower: u32) -> (r: u8)
    requires
        upper <= 8,
        lower <= 8,
    ensures
        r == if upper >= lower {
            pow2(upper as nat) - pow2(lower as nat)
        } else {
            pow2(lower as nat) - pow2(upper as nat)
        },
{
    proof {
        lemma_shl_one_u64(upper as u64);
        lemma_shl_one_u64(lower as u64);
        assert(((((0xffu32) << upper) ^ ((0xffu32) << lower)) as u8) as int == if upper >= lower {
            (1u64 << (upper as u64)) - (1u64 << (lower as u64))
        } else {
            (1u64 << (lower as u64)) - (1u64 << (upper as u64))
        }) by (bit_vector)
            requires upper <= 8, lower <= 8;
    }
    (((0xffu32) << upper) ^ ((0xffu32) << lower)) as u8
}

/// `1u8 << idx` is `2^idx` for indices of a byte.
proof fn lemma_u8_shl(idx: u32)
    requires
        idx <= 7,
    ensures
        (1u8 << idx) as int == pow2(idx as nat),
        1 <= pow2(idx as nat) <= 128,
{
    lemma2_to64();
    lemma_shl_one_u64(idx as u64);
    assert((1u8 << idx) as u64 == 1u64 << (idx as u64)) by (bit_vector)
        requires idx <= 7;
}

} // verus!
